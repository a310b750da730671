# reel2mp3

A terminal dashboard that turns Instagram reels into MP3s with yt-dlp. Links
are pasted into a staging panel, looked over, then started as a batch.

The decisions of the program form a library proved with Verus:

| file | holds |
|------|-------|
| `src/text.rs` | text helpers: trimming, finding, word splitting, sizes and durations |
| `src/link.rs` | finding links in pasted text, their short form and identity |
| `src/job.rs` | yt-dlp's arguments and the meaning of each line it prints |
| `src/app.rs` | the dashboard's state and how keys, clicks and messages change it |
| `src/view.rs` | the words, marks and places the screen shows |
| `src/graph.rs` | braille cells for the waveforms |
| `src/cli.rs` | the command line |
| `src/laws.rs` | properties that span several operations |

`app/` holds the program around it: the terminal (ratatui), the yt-dlp
processes, the clipboard, the clock and the floating-point rates and graphs.
