//! What holds of the dashboard across operations, proved from the
//! transitions in `app` and the text functions in `link` and `text`.

use vstd::prelude::*;
use crate::app::{
    AppView, EffectView, Focus, JobView, Key, KeyCode, Mouse, Rect, StagedView, Status,
    UpdateView, active_count, arrived, cookie_label, cookie_pos, exited, is_char, lemma_index_of_id,
    ready_urls,
    fresh_job, index_of_id, queue_holds, stage_links, staging_holds, unfinished, updated,
};
use crate::link::{is_link, link_in, link_key, link_start, links_in, short_url_of, urls_in, utf8_len};
use crate::job::{MsgView, advice_at, field_value, tab_fields, args_after_folder, clean_error_of, cut_advice, drop_tag, parse_of};
use crate::text::{
    Class, as_double, before, dec, digit, div_round_even, dropped_bits, duration_text, in_class,
    is_ws, pow2, size_text, size_unit, two_digits, unit_bytes, unit_name, lemma_run_len, lemma_trim_end_in, lemma_trim_start_ws, run_len,
    starts_with, strip_all, tail_of, trim_end_in, trim_start_ws, trim_ws, truncate_of, words, find,
    find_from,
    occurs_at,
};

verus! {

/// Pasting links never starts a download: staging leaves the queue as it was.
pub proof fn stage_never_queues(a: AppView, text: Seq<char>)
    ensures
        a.after_stage(text).jobs == a.jobs,
        a.after_stage(text).next_id == a.next_id,
{
}

proof fn lemma_stage_links_holds(st: Seq<StagedView>, jobs: Seq<JobView>, urls: Seq<Seq<char>>)
    ensures
        forall|k: int| 0 <= k < urls.len() ==> staging_holds(stage_links(st, jobs, urls), link_key(#[trigger] urls[k])),
        forall|i: int| 0 <= i < st.len() ==> (#[trigger] stage_links(st, jobs, urls)[i]) == st[i],
        st.len() <= stage_links(st, jobs, urls).len(),
    decreases urls.len(),
{
    if urls.len() > 0 {
        let d = urls.drop_last();
        lemma_stage_links_holds(st, jobs, d);
        let before = stage_links(st, jobs, d);
        let u = urls.last();
        assert forall|k: int| 0 <= k < urls.len() implies staging_holds(
            stage_links(st, jobs, urls),
            link_key(#[trigger] urls[k]),
        ) by {
            let after = stage_links(st, jobs, urls);
            if k < urls.len() - 1 {
                assert(urls[k] == d[k]);
                let w = choose|w: int| 0 <= w < before.len() && link_key(#[trigger] before[w].url) == link_key(d[k]);
                assert(after[w] == before[w]);
            } else if staging_holds(before, link_key(u)) {
            } else {
                assert(after[before.len() as int].url == u);
            }
        }
    }
}

/// Every link in pasted text ends up in the staging panel: either it was
/// there already (as the same reel) or it is added.
pub proof fn paste_stages_every_link(a: AppView, text: Seq<char>)
    ensures
        forall|k: int|
            0 <= k < urls_in(text).len() ==> staging_holds(
                a.after_stage(text).staged,
                link_key(#[trigger] urls_in(text)[k]),
            ),
{
    lemma_stage_links_holds(a.staged, a.jobs, urls_in(text));
}

/// Staging keeps what was staged before, in place.
pub proof fn stage_keeps_staged(a: AppView, text: Seq<char>)
    ensures
        forall|i: int| 0 <= i < a.staged.len() ==> (#[trigger] a.after_stage(text).staged[i]) == a.staged[i],
{
    lemma_stage_links_holds(a.staged, a.jobs, urls_in(text));
}

proof fn lemma_stage_links_noop(st: Seq<StagedView>, jobs: Seq<JobView>, urls: Seq<Seq<char>>)
    requires
        forall|k: int| 0 <= k < urls.len() ==> staging_holds(st, link_key(#[trigger] urls[k])),
    ensures
        stage_links(st, jobs, urls) == st,
    decreases urls.len(),
{
    if urls.len() > 0 {
        let d = urls.drop_last();
        assert forall|k: int| 0 <= k < d.len() implies staging_holds(st, link_key(#[trigger] d[k])) by {
            assert(d[k] == urls[k]);
        }
        lemma_stage_links_noop(st, jobs, d);
        assert(staging_holds(st, link_key(urls[urls.len() - 1])));
    }
}

/// Pasting the same text twice stages nothing new the second time.
pub proof fn paste_twice_stages_once(a: AppView, text: Seq<char>)
    ensures
        a.after_stage(text).after_stage(text).staged == a.after_stage(text).staged,
{
    let b = a.after_stage(text);
    paste_stages_every_link(a, text);
    assert(b.jobs == a.jobs);
    lemma_stage_links_noop(b.staged, b.jobs, urls_in(text));
    assert(b.after_stage(text).staged == stage_links(b.staged, b.jobs, urls_in(text)));
}

proof fn lemma_stage_links_flags(st: Seq<StagedView>, jobs: Seq<JobView>, urls: Seq<Seq<char>>)
    ensures
        forall|i: int|
            st.len() <= i < stage_links(st, jobs, urls).len() ==> (#[trigger] stage_links(st, jobs, urls)[i]).dup
                == queue_holds(jobs, link_key(stage_links(st, jobs, urls)[i].url)),
    decreases urls.len(),
{
    if urls.len() > 0 {
        lemma_stage_links_flags(st, jobs, urls.drop_last());
        let before = stage_links(st, jobs, urls.drop_last());
        let after = stage_links(st, jobs, urls);
        assert forall|i: int| st.len() <= i < after.len() implies (#[trigger] after[i]).dup == queue_holds(
            jobs,
            link_key(after[i].url),
        ) by {
            if i < before.len() {
                assert(after[i] == before[i]);
            }
        }
    }
}

/// A newly staged link is marked as already queued exactly when the queue
/// holds the same reel.
pub proof fn staged_links_flag_queued_reels(a: AppView, text: Seq<char>)
    ensures
        forall|i: int|
            a.staged.len() <= i < a.after_stage(text).staged.len() ==> (#[trigger] a.after_stage(text).staged[i]).dup
                == queue_holds(a.jobs, link_key(a.after_stage(text).staged[i].url)),
{
    lemma_stage_links_flags(a.staged, a.jobs, urls_in(text));
}

/// Starting with something staged empties the staging panel; each job it
/// adds is new, queued and numbered after every job before it.
pub proof fn start_queues_fresh_jobs(a: AppView)
    requires
        a.wf(),
        a.room_for_staged(),
        a.staged.len() > 0,
    ensures
        a.after_start().staged.len() == 0,
        forall|i: int|
            a.jobs.len() <= i < a.after_start().jobs.len() ==> {
                &&& (#[trigger] a.after_start().jobs[i]).status is Queued
                &&& a.after_start().jobs[i].id >= a.next_id
            },
        forall|i: int| 0 <= i < a.jobs.len() ==> (#[trigger] a.after_start().jobs[i]) == a.jobs[i],
{
    crate::app::lemma_ready_urls(a.staged);
}

/// The queue never runs more downloads than allowed: a job is only started
/// while fewer than `workers` run, it is the first one waiting, and starting
/// it keeps the count within the limit.
pub proof fn start_respects_worker_limit(a: AppView)
    requires
        a.next_start() is Some,
    ensures
        active_count(a.jobs) < a.workers,
        a.jobs[a.next_start().unwrap()].status is Queued,
        forall|t: int| 0 <= t < a.next_start().unwrap() ==> !(a.jobs[t].status is Queued),
        active_count(a.with_status(a.next_start().unwrap(), Status::Fetching).jobs) <= a.workers,
{
    let i = a.next_start().unwrap();
    crate::app::lemma_first_with_status(a.jobs, Status::Queued, 0);
    crate::app::lemma_active_count_update(a.jobs, i, JobView { status: Status::Fetching, ..a.jobs[i] });
}

/// A job that could not be started takes no worker.
pub proof fn failed_start_frees_worker(a: AppView, i: int, reason: Seq<char>)
    requires
        0 <= i < a.jobs.len(),
        a.jobs[i].status is Queued,
    ensures
        active_count(a.start_failed_at(i, reason).jobs) == active_count(a.jobs),
{
    crate::app::lemma_active_count_update(a.jobs, i, a.start_failed_at(i, reason).jobs[i]);
}

/// Messages for a job that is no longer in the queue change nothing.
pub proof fn updates_for_unknown_jobs_are_dropped(a: AppView, u: UpdateView)
    requires
        forall|i: int| 0 <= i < a.jobs.len() ==> (#[trigger] a.jobs[i]).id != u.job_id(),
    ensures
        a.after_update(u) == a,
{
    crate::app::lemma_index_of_id_none(a.jobs, u.job_id(), 0);
}

/// A canceled job stays canceled when its process ends, whatever the exit code.
pub proof fn canceled_stays_canceled(j: JobView, code: Option<i32>)
    requires
        j.status is Canceled,
    ensures
        exited(j, code).status is Canceled,
{
}

/// A download that ends with exit code 0 is done, and is marked as taken
/// from the folder exactly when no bytes came over the network.
pub proof fn clean_exit_is_done(j: JobView)
    requires
        !(j.status is Canceled),
    ensures
        exited(j, Some(0i32)).status is Done,
        exited(j, Some(0i32)).cached == !j.got_bytes,
{
}

/// A download that ends any other way has failed, and says why.
pub proof fn other_exit_fails(j: JobView, code: Option<i32>)
    requires
        !(j.status is Canceled),
        code != Some(0i32),
    ensures
        exited(j, code).status is Failed,
        exited(j, code).error is Some,
{
}

/// Retrying every failure leaves no failed or canceled job, queues those
/// again from scratch under the same id and link, and leaves the rest alone.
pub proof fn retry_all_requeues_failures(a: AppView)
    ensures
        forall|i: int| 0 <= i < a.jobs.len() ==> {
            let j = #[trigger] a.after_retry(true).jobs[i];
            &&& !(j.status is Failed) && !(j.status is Canceled)
            &&& (a.jobs[i].status is Failed || a.jobs[i].status is Canceled) ==> j == fresh_job(a.jobs[i].id, a.jobs[i].url)
            &&& !(a.jobs[i].status is Failed || a.jobs[i].status is Canceled) ==> j == a.jobs[i]
        },
        a.after_retry(true).jobs.len() == a.jobs.len(),
{
    if a.retry_ids(true, a.jobs.len() as int).len() == 0 {
        a.lemma_no_retries(true, a.jobs.len() as int);
        assert forall|i: int| 0 <= i < a.jobs.len() implies !(a.jobs[i].status is Failed) && !(
        a.jobs[i].status is Canceled) by {
            assert(!a.retries(true, i));
        }
    } else {
        assert forall|i: int| 0 <= i < a.jobs.len() implies (#[trigger] a.after_retry(true).jobs[i])
            == if a.retries(true, i) {
            fresh_job(a.jobs[i].id, a.jobs[i].url)
        } else {
            a.jobs[i]
        } by {}
    }
}

proof fn lemma_unfinished_props(jobs: Seq<JobView>)
    ensures
        forall|i: int| 0 <= i < unfinished(jobs).len() ==> !((#[trigger] unfinished(jobs)[i]).status is Done),
        unfinished(jobs).len() == jobs.len() - done_count(jobs),
    decreases jobs.len(),
{
    if jobs.len() > 0 {
        lemma_unfinished_props(jobs.drop_last());
    }
}

/// Finished jobs in the queue.
pub open spec fn done_count(jobs: Seq<JobView>) -> nat
    decreases jobs.len(),
{
    if jobs.len() == 0 {
        0
    } else {
        done_count(jobs.drop_last()) + if jobs.last().status is Done {
            1nat
        } else {
            0nat
        }
    }
}

/// Clearing removes exactly the finished jobs: none is left, and every other
/// job stays.
pub proof fn clear_removes_only_finished(a: AppView)
    ensures
        forall|i: int| 0 <= i < a.after_clear().jobs.len() ==> !((#[trigger] a.after_clear().jobs[i]).status is Done),
        a.after_clear().jobs.len() == a.jobs.len() - done_count(a.jobs),
{
    lemma_unfinished_props(a.jobs);
}

/// Moving the selection in a non-empty list always lands on a row of it.
pub proof fn selection_stays_in_range(a: AppView, delta: int)
    ensures
        a.focus is Add && a.staged.len() > 0 ==> a.after_move(delta).staged_sel < a.staged.len(),
        !(a.focus is Add) && a.jobs.len() > 0 ==> a.after_move(delta).selected.unwrap() < a.jobs.len(),
{
}

/// With downloads running, a first `q` only warns; a second one while the
/// warning is fresh quits. With nothing running, `q` quits at once.
pub proof fn quit_asks_twice_while_busy(a: AppView)
    ensures
        active_count(a.jobs) > 0 ==> !a.after_quit(false).should_quit || a.should_quit,
        a.after_quit(true).should_quit,
        active_count(a.jobs) == 0 ==> a.after_quit(false).should_quit,
{
}

/// Pressing `c` five times comes back to the same cookie choice.
pub proof fn cookies_cycle_through_five(a: AppView)
    requires
        a.cookies < 5,
    ensures
        a.after_cookies().after_cookies().after_cookies().after_cookies().after_cookies().cookies
            == a.cookies,
{
}

/// The number of downloads at once stays between 1 and 6, and `+` then `-`
/// undoes itself below the top.
pub proof fn workers_stay_in_range(a: AppView)
    requires
        1 <= a.workers <= 6,
    ensures
        1 <= a.after_workers(true).workers <= 6,
        1 <= a.after_workers(false).workers <= 6,
        a.workers < 6 ==> a.after_workers(true).after_workers(false).workers == a.workers,
{
}

/// Outside the link prompt and without control held, each key does what the
/// help line says.
pub proof fn keys_do_what_the_help_says(a: AppView, k: Key, armed: bool)
    requires
        !(a.focus is Input),
        !k.ctrl,
    ensures
        ({
            let (n, e) = a.key_step(k, armed);
            let code = k.code;
            let add = a.focus is Add;
            &&& code == KeyCode::Enter && (add || a.staged.len() > 0) ==> n == a.after_start()
            &&& code == KeyCode::Enter && !(add || a.staged.len() > 0) ==> (n, e) == a.play_step()
            &&& is_char(code, 's') ==> n == a.after_start() && e == EffectView::Nothing
            &&& is_char(code, 'p') ==> (n, e) == a.play_step()
            &&& is_char(code, 'd') && add ==> n == a.after_drop_staged()
            &&& is_char(code, 'd') && !add ==> n == a.after_cancel_or_remove()
            &&& is_char(code, 'x') && add ==> n.staged.len() == 0 && n.jobs == a.jobs
            &&& is_char(code, 'x') && !add ==> n == a.after_clear()
            &&& is_char(code, 'r') ==> n == a.after_retry(false)
            &&& is_char(code, 'R') ==> n == a.after_retry(true)
            &&& (is_char(code, 'q') || code == KeyCode::Esc) ==> n == a.after_quit(armed)
            &&& (code == KeyCode::Tab || code == KeyCode::BackTab) ==> n == (AppView {
                focus: if add { Focus::Queue } else { Focus::Add },
                ..a
            })
            &&& (is_char(code, 'a') || is_char(code, 'i') || is_char(code, '/')) ==> n.focus
                is Input
            &&& is_char(code, 'v') ==> n == a && e == EffectView::Paste
            &&& is_char(code, 'o') ==> n == a && e == EffectView::OpenFolder
            &&& is_char(code, 'c') ==> n == a.after_cookies()
            &&& (is_char(code, '+') || is_char(code, '=')) ==> n == a.after_workers(true)
            &&& (is_char(code, '-') || is_char(code, '_')) ==> n == a.after_workers(false)
        }),
{
}

/// Whatever key is pressed, the cookie choice stays one of the five and the
/// number of downloads at once stays from 1 to 6; `c` moves to the next
/// choice, `+` and `-` move by one within that range.
pub proof fn keys_keep_settings_in_range(a: AppView, k: Key, armed: bool)
    requires
        a.cookies < 5,
        1 <= a.workers <= 6,
    ensures
        a.key_step(k, armed).0.cookies < 5,
        1 <= a.key_step(k, armed).0.workers <= 6,
        !(a.focus is Input) && !k.ctrl && is_char(k.code, 'c') ==> a.key_step(k, armed).0.cookies
            == (a.cookies + 1) % 5,
        !(a.focus is Input) && !k.ctrl && (is_char(k.code, '+') || is_char(k.code, '='))
            ==> a.key_step(k, armed).0.workers == if a.workers < 6 { a.workers + 1 } else { 6 },
        !(a.focus is Input) && !k.ctrl && (is_char(k.code, '-') || is_char(k.code, '_'))
            ==> a.key_step(k, armed).0.workers == if a.workers > 1 { a.workers - 1 } else { 1 },
{
}

/// A click on the start button starts; scrolling first focuses the list under
/// the pointer (the queue over the staging panel), then moves by two; other
/// events change nothing. An area of no width is never hit.
pub proof fn clicks_and_scrolls(a: AppView, m: Mouse)
    ensures
        m.kind is LeftDown && a.hit_start.holds(m.column, m.row) ==> a.mouse_step(m) == a.after_start(),
        m.kind is ScrollDown ==> a.mouse_step(m) == a.scroll_focus(m.column, m.row).after_move(2),
        m.kind is ScrollUp ==> a.mouse_step(m) == a.scroll_focus(m.column, m.row).after_move(-2),
        a.scroll_focus(m.column, m.row).focus == if a.hit_rows.holds(m.column, m.row) {
            Focus::Queue
        } else if a.hit_staged.holds(m.column, m.row) {
            Focus::Add
        } else {
            a.focus
        },
        m.kind is Other ==> a.mouse_step(m) == a,
        forall|r: Rect, c: u16, w: u16| r.width == 0 ==> !#[trigger] r.holds(c, w),
{
}

/// Each tick counts one and remembers every job's byte count, so the next
/// tick measures what arrived since; nothing else changes.
pub proof fn ticks_count_and_remember_bytes(a: AppView)
    requires
        a.tick < u64::MAX,
    ensures
        a.after_tick().tick == a.tick + 1,
        a.after_tick().jobs.len() == a.jobs.len(),
        forall|i: int| 0 <= i < a.jobs.len() ==> #[trigger] a.after_tick().jobs[i] == (JobView {
            last_done: a.jobs[i].done,
            ..a.jobs[i]
        }),
        a.after_tick() == (AppView { tick: a.after_tick().tick, jobs: a.after_tick().jobs, ..a }),
        forall|i: int| 0 <= i < a.jobs.len() ==> #[trigger] arrived(a.jobs)[i] == if a.jobs[i].done
            > a.jobs[i].last_done {
            a.jobs[i].done - a.jobs[i].last_done
        } else {
            0
        },
{
}

/// Two ticks with no progress in between report no bytes the second time.
pub proof fn second_tick_reports_nothing_new(a: AppView)
    ensures
        forall|i: int| 0 <= i < a.jobs.len() ==> #[trigger] crate::app::arrived(a.after_tick().jobs)[i] == 0,
{
}


proof fn lemma_words_blank_free(s: Seq<char>)
    ensures
        forall|k: int, c: int|
            0 <= k < words(s).len() && 0 <= c < words(s)[k].len() ==> !is_ws(#[trigger] words(s)[k][c]),
    decreases s.len(),
{
    let t = trim_start_ws(s);
    if t.len() > 0 {
        lemma_trim_start_ws(s);
        lemma_run_len(t);
        let n = run_len(t);
        lemma_words_blank_free(t.skip(n as int));
        let rest = words(t.skip(n as int));
        assert forall|k: int, c: int|
            0 <= k < words(s).len() && 0 <= c < words(s)[k].len() implies !is_ws(#[trigger] words(s)[k][c]) by {
            if k == 0 {
                assert(words(s)[0] == t.take(n as int));
                assert(t.take(n as int)[c] == t[c]);
            } else {
                assert(words(s)[k] == rest[k - 1]);
            }
        }
    }
}

proof fn lemma_link_survives_trim(w: Seq<char>)
    requires
        is_link(w),
    ensures
        is_link(trim_end_in(w, Class::Closing)),
{
    reveal_strlit("http://");
    reveal_strlit("https://");
    let t = trim_end_in(w, Class::Closing);
    lemma_trim_end_in(w, Class::Closing);
    let p = if starts_with(w, "http://"@) { "http://"@ } else { "https://"@ };
    assert(p[p.len() - 1] == '/');
    if t.len() < p.len() {
        assert(w[p.len() - 1] == p[p.len() - 1]);
        assert(in_class(Class::Closing, w[p.len() - 1]));
    }
    assert(t.take(p.len() as int) =~= w.take(p.len() as int));
}

proof fn lemma_link_start(w: Seq<char>)
    requires
        link_start(w) is Some,
    ensures
        0 <= link_start(w).unwrap() <= w.len(),
        is_link(w.skip(link_start(w).unwrap())),
{
    let p = link_start(w).unwrap();
    if find(w, "http://"@) is Some {
        lemma_find_first(w, "http://"@, 0);
    }
    if find(w, "https://"@) is Some {
        lemma_find_first(w, "https://"@, 0);
    }
    if find(w, "http://"@) == Some(p) {
        assert(w.skip(p).take("http://"@.len() as int) =~= w.subrange(p, p + "http://"@.len()));
    } else {
        assert(w.skip(p).take("https://"@.len() as int) =~= w.subrange(p, p + "https://"@.len()));
    }
}

proof fn lemma_links_in(ws: Seq<Seq<char>>)
    requires
        forall|k: int, c: int| 0 <= k < ws.len() && 0 <= c < ws[k].len() ==> !is_ws(#[trigger] ws[k][c]),
    ensures
        forall|k: int| 0 <= k < links_in(ws).len() ==> {
            let u = #[trigger] links_in(ws)[k];
            &&& is_link(u)
            &&& utf8_len(u) > 12
            &&& u.len() > 0 ==> !in_class(Class::Closing, u.last())
            &&& forall|c: int| 0 <= c < u.len() ==> !is_ws(u[c])
        },
    decreases ws.len(),
{
    if ws.len() > 0 {
        let d = ws.drop_last();
        assert forall|k: int, c: int| 0 <= k < d.len() && 0 <= c < d[k].len() implies !is_ws(#[trigger] d[k][c]) by {
            assert(d[k] == ws[k]);
        }
        lemma_links_in(d);
        let w = ws.last();
        let t = link_in(w);
        let r = links_in(d);
        if link_start(w) is Some && utf8_len(t) > 12 {
            let p = link_start(w).unwrap();
            lemma_link_start(w);
            let v = w.skip(p);
            lemma_link_survives_trim(v);
            lemma_trim_end_in(v, Class::Closing);
            assert forall|c: int| 0 <= c < t.len() implies !is_ws(t[c]) by {
                assert(t[c] == w[p + c]);
                assert(ws[ws.len() - 1][p + c] == w[p + c]);
            }
            assert forall|k: int| 0 <= k < links_in(ws).len() implies {
                let u = #[trigger] links_in(ws)[k];
                &&& is_link(u)
                &&& utf8_len(u) > 12
                &&& u.len() > 0 ==> !in_class(Class::Closing, u.last())
                &&& forall|c: int| 0 <= c < u.len() ==> !is_ws(u[c])
            } by {
                if k < r.len() {
                    assert(links_in(ws)[k] == r[k]);
                } else {
                    assert(links_in(ws)[k] == t);
                }
            }
        }
    }
}

/// Every link taken from pasted text starts with `http://` or `https://`,
/// holds no whitespace, is longer than 12 bytes and does not end in the
/// punctuation that prose leaves around a link.
pub proof fn extracted_links_are_links(text: Seq<char>)
    ensures
        forall|k: int| 0 <= k < urls_in(text).len() ==> {
            let u = #[trigger] urls_in(text)[k];
            &&& is_link(u)
            &&& utf8_len(u) > 12
            &&& u.len() > 0 ==> !in_class(Class::Closing, u.last())
            &&& forall|c: int| 0 <= c < u.len() ==> !is_ws(u[c])
        },
{
    lemma_words_blank_free(text);
    lemma_links_in(words(text));
}

proof fn lemma_find_absent(s: Seq<char>, p: Seq<char>, i: int)
    requires
        0 <= i,
        find_from(s, p, i) is None,
    ensures
        forall|t: int| i <= t ==> !occurs_at(s, p, t),
    decreases s.len() - i,
{
    if i + p.len() <= s.len() && !occurs_at(s, p, i) && i < s.len() {
        lemma_find_absent(s, p, i + 1);
    }
}

proof fn lemma_before_has_no(s: Seq<char>, c: char)
    ensures
        !before(s, c).contains(c),
{
    match find(s, seq![c]) {
        Some(k) => {
            lemma_find_first(s, seq![c], 0);
            assert forall|t: int| 0 <= t < k implies s.take(k)[t] != c by {
                assert(!occurs_at(s, seq![c], t));
                if s[t] == c {
                    assert(s.subrange(t, t + 1) =~= seq![c]);
                }
            }
        },
        None => {
            lemma_find_absent(s, seq![c], 0);
            assert forall|t: int| 0 <= t < s.len() implies s[t] != c by {
                assert(!occurs_at(s, seq![c], t));
                if s[t] == c {
                    assert(s.subrange(t, t + 1) =~= seq![c]);
                }
            }
        },
    }
}

proof fn lemma_find_first(s: Seq<char>, p: Seq<char>, i: int)
    requires
        0 <= i,
        find_from(s, p, i) is Some,
    ensures
        i <= find_from(s, p, i).unwrap(),
        forall|t: int| i <= t < find_from(s, p, i).unwrap() ==> !occurs_at(s, p, t),
        occurs_at(s, p, find_from(s, p, i).unwrap()),
    decreases s.len() - i,
{
    if !occurs_at(s, p, i) {
        lemma_find_first(s, p, i + 1);
    }
}

/// The short form of a link ends in no `/` and holds no `?`, so trimming
/// slashes off it again changes nothing.
pub proof fn short_links_are_trimmed(url: Seq<char>)
    ensures
        short_url_of(url).len() > 0 ==> short_url_of(url).last() != '/',
        !short_url_of(url).contains('?'),
        trim_end_in(short_url_of(url), Class::Slash) == short_url_of(url),
{
    let s = strip_all(strip_all(strip_all(url, "https://"@), "http://"@), "www."@);
    let b = before(s, '?');
    lemma_trim_end_in(b, Class::Slash);
    lemma_before_has_no(s, '?');
    let r = short_url_of(url);
    assert forall|t: int| 0 <= t < r.len() implies r[t] != '?' by {
        assert(r[t] == b[t]);
    }
}

/// A cleaned error message is at most 180 characters long.
pub proof fn clean_errors_are_short(m: Seq<char>)
    ensures
        clean_error_of(m).len() <= 180,
{
}

proof fn lemma_absent_in_part(s: Seq<char>, p: Seq<char>, a: int, b: int)
    requires
        0 <= a <= b <= s.len(),
        forall|t: int| !occurs_at(s, p, t),
    ensures
        forall|t: int| !occurs_at(s.subrange(a, b), p, t),
{
    assert forall|t: int| !occurs_at(s.subrange(a, b), p, t) by {
        if occurs_at(s.subrange(a, b), p, t) {
            assert(s.subrange(a, b).subrange(t, t + p.len()) =~= s.subrange(a + t, a + t + p.len()));
            assert(occurs_at(s, p, a + t));
        }
    }
}

proof fn lemma_find_in_bounds(s: Seq<char>, p: Seq<char>)
    ensures
        find(s, p) is Some ==> 0 <= find(s, p).unwrap() <= s.len(),
{
    if find(s, p) is Some {
        lemma_find_first(s, p, 0);
    }
}

proof fn lemma_no_link_after_cut(u: Seq<char>)
    ensures
        forall|t: int| !occurs_at(cut_advice(u), " http"@, t),
{
    reveal_strlit(" http");
    let p = " http"@;
    lemma_find_in_bounds(u, " See http"@);
    lemma_find_in_bounds(u, " Please report"@);
    lemma_find_in_bounds(u, "; please report"@);
    lemma_find_in_bounds(u, p);
    match find(u, p) {
        Some(f) => {
            lemma_find_first(u, p, 0);
            let k = advice_at(u).unwrap();
            assert(k <= f);
            assert forall|t: int| !occurs_at(cut_advice(u), p, t) by {
                if occurs_at(cut_advice(u), p, t) {
                    assert(cut_advice(u).subrange(t, t + p.len()) =~= u.subrange(t, t + p.len()));
                    assert(occurs_at(u, p, t));
                }
            }
        },
        None => {
            lemma_find_absent(u, p, 0);
            match advice_at(u) {
                Some(k) => {
                    lemma_absent_in_part(u, p, 0, k);
                    assert(u.subrange(0, k) =~= cut_advice(u));
                },
                None => {},
            }
        },
    }
}

/// A cleaned error message holds no link: everything from the first link
/// on is advice for a bug report, and is dropped.
pub proof fn clean_errors_hold_no_link(m: Seq<char>)
    ensures
        forall|t: int| !occurs_at(clean_error_of(m), " http"@, t),
{
    reveal_strlit(" http");
    let p = " http"@;
    let c = cut_advice(drop_tag(trim_ws(m)));
    lemma_no_link_after_cut(drop_tag(trim_ws(m)));
    let s1 = trim_start_ws(c);
    lemma_trim_start_ws(c);
    lemma_absent_in_part(c, p, c.len() - s1.len(), c.len() as int);
    assert(c.subrange(c.len() - s1.len(), c.len() as int) =~= s1);
    let s2 = trim_end_in(s1, Class::Blank);
    lemma_trim_end_in(s1, Class::Blank);
    lemma_absent_in_part(s1, p, 0, s2.len() as int);
    assert(s1.subrange(0, s2.len() as int) =~= s2);
    let w = trim_end_in(s2, Class::Stop);
    lemma_trim_end_in(s2, Class::Stop);
    lemma_absent_in_part(s2, p, 0, w.len() as int);
    assert(s2.subrange(0, w.len() as int) =~= w);
    if w.len() > 180 {
        let r = w.take(179).push('…');
        lemma_absent_in_part(w, p, 0, 179);
        assert(w.subrange(0, 179) =~= w.take(179));
        assert forall|t: int| !occurs_at(r, p, t) by {
            if occurs_at(r, p, t) {
                if t + p.len() <= 179 {
                    assert(r.subrange(t, t + p.len()) =~= w.take(179).subrange(t, t + p.len()));
                    assert(occurs_at(w.take(179), p, t));
                } else {
                    assert(r.subrange(t, t + p.len())[4] == r[179]);
                    assert(p[4] == 'p');
                }
            }
        }
    }
}

/// `tail` keeps at most `width` characters once it cuts (widths of 4 and
/// more), and what it keeps is the end of the text.
pub proof fn tail_fits(s: Seq<char>, width: nat)
    ensures
        width >= 4 ==> tail_of(s, width).len() <= width,
        s.len() > width && width >= 4 ==> tail_of(s, width).drop_first() == s.skip(s.len() - (width - 1)),
{
}

/// `truncate` keeps at most `width` characters (one at least), and what it
/// keeps is the start of the text.
pub proof fn truncate_fits(s: Seq<char>, width: nat)
    ensures
        truncate_of(s, width).len() <= if width >= 1 { width } else { 1 },
        forall|i: int| 0 <= i < truncate_of(s, width).len() - 1 ==> truncate_of(s, width)[i] == s[i],
{
}


/// Once bytes of a download have arrived, the job remembers it through every
/// later message; a progress report of some bytes is such an arrival.
pub proof fn arrived_bytes_are_remembered(j: JobView, u: UpdateView)
    ensures
        j.got_bytes ==> updated(j, u).got_bytes,
        (u matches UpdateView::Progress { done, .. } && done > 0) ==> updated(j, u).got_bytes,
{
}

/// The link is always the last argument yt-dlp gets, right after `--`, so
/// that no link is ever read as an option.
pub proof fn link_is_the_last_argument(url: Seq<char>, cookies: Option<Seq<char>>)
    ensures
        args_after_folder(url, cookies).last() == url,
        args_after_folder(url, cookies)[args_after_folder(url, cookies).len() - 2] == "--"@,
{
}

/// A `@FILE` line gives the path that follows the tag, whatever it holds.
pub proof fn file_lines_keep_their_path(id: usize, path: Seq<char>)
    ensures
        parse_of(id, "@FILE "@ + path) == Some(MsgView::File { id, path }),
{
    reveal_strlit("@FILE ");
    reveal_strlit("@DL ");
    reveal_strlit("@PP ");
    reveal_strlit("@META ");
    let s = "@FILE "@ + path;
    assert(s[1] == 'F');
    assert(s.take(6) =~= "@FILE "@);
    assert(s.skip(6) =~= path);
    assert(!starts_with(s, "@DL "@)) by {
        if starts_with(s, "@DL "@) {
            assert(s.take(4)[1] == "@DL "@[1]);
        }
    }
    assert(!starts_with(s, "@PP "@)) by {
        if starts_with(s, "@PP "@) {
            assert(s.take(4)[1] == "@PP "@[1]);
        }
    }
    assert(!starts_with(s, "@META "@)) by {
        if starts_with(s, "@META "@) {
            assert(s.take(6)[1] == "@META "@[1]);
        }
    }
}

/// An `ERROR: ` line gives the cleaned message.
pub proof fn error_lines_are_cleaned(id: usize, m: Seq<char>)
    ensures
        parse_of(id, "ERROR: "@ + m) == Some(MsgView::Error { id, msg: clean_error_of(m) }),
{
    reveal_strlit("ERROR: ");
    reveal_strlit("@FILE ");
    reveal_strlit("@DL ");
    reveal_strlit("@PP ");
    reveal_strlit("@META ");
    let s = "ERROR: "@ + m;
    assert(s[0] == 'E');
    assert(s.take(7) =~= "ERROR: "@);
    assert(s.skip(7) =~= m);
    assert(!starts_with(s, "@DL "@)) by {
        if starts_with(s, "@DL "@) {
            assert(s.take(4)[0] == "@DL "@[0]);
        }
    }
    assert(!starts_with(s, "@PP "@)) by {
        if starts_with(s, "@PP "@) {
            assert(s.take(4)[0] == "@PP "@[0]);
        }
    }
    assert(!starts_with(s, "@META "@)) by {
        if starts_with(s, "@META "@) {
            assert(s.take(6)[0] == "@META "@[0]);
        }
    }
    assert(!starts_with(s, "@FILE "@)) by {
        if starts_with(s, "@FILE "@) {
            assert(s.take(6)[0] == "@FILE "@[0]);
        }
    }
}

/// Any other non-empty line is kept whole as a log line.
pub proof fn other_lines_are_logged(id: usize, s: Seq<char>)
    requires
        s.len() > 0,
        s[0] != '@',
        s[0] != 'E',
    ensures
        parse_of(id, s) == Some(MsgView::Log { id, line: s }),
{
    reveal_strlit("ERROR: ");
    reveal_strlit("@FILE ");
    reveal_strlit("@DL ");
    reveal_strlit("@PP ");
    reveal_strlit("@META ");
    assert(!starts_with(s, "@DL "@)) by {
        if starts_with(s, "@DL "@) {
            assert(s.take(4)[0] == "@DL "@[0]);
        }
    }
    assert(!starts_with(s, "@PP "@)) by {
        if starts_with(s, "@PP "@) {
            assert(s.take(4)[0] == "@PP "@[0]);
        }
    }
    assert(!starts_with(s, "@META "@)) by {
        if starts_with(s, "@META "@) {
            assert(s.take(6)[0] == "@META "@[0]);
        }
    }
    assert(!starts_with(s, "@FILE "@)) by {
        if starts_with(s, "@FILE "@) {
            assert(s.take(6)[0] == "@FILE "@[0]);
        }
    }
    assert(!starts_with(s, "ERROR: "@)) by {
        if starts_with(s, "ERROR: "@) {
            assert(s.take(7)[0] == "ERROR: "@[0]);
        }
    }
}

/// Removing a row or clearing finished ones leaves the selection on a row
/// whenever the queue is not empty.
pub proof fn removals_keep_selection_on_a_row(a: AppView)
    ensures
        a.after_cancel_or_remove().jobs.len() > 0 && a.selected is Some && a.row() is Some ==> a.after_cancel_or_remove().selected.unwrap() < a.after_cancel_or_remove().jobs.len(),
        a.after_clear().jobs.len() > 0 ==> a.after_clear().selected.unwrap() < a.after_clear().jobs.len(),
{
}

// ---- what each operation is for ---------------------------------------------

/// The link a word of pasted text gives, if it holds one long enough.
pub open spec fn link_of_word(w: Seq<char>) -> Option<Seq<char>> {
    if link_start(w) is Some && utf8_len(link_in(w)) > 12 {
        Some(link_in(w))
    } else {
        None
    }
}

proof fn lemma_links_are_every_word_link(ws: Seq<Seq<char>>)
    ensures
        links_in(ws) == ws.filter_map(|w: Seq<char>| link_of_word(w)),
    decreases ws.len(),
{
    if ws.len() > 0 {
        lemma_links_are_every_word_link(ws.drop_last());
        let f = |w: Seq<char>| link_of_word(w);
        let rest = ws.drop_last().filter_map(f);
        if link_of_word(ws.last()) is Some {
            assert(rest.push(link_in(ws.last())) =~= rest + seq![link_in(ws.last())]);
        }
    }
}

/// No link is lost: the links taken from a text are, in order, the link of
/// every word that holds one, however many there are.
pub proof fn every_link_is_taken(text: Seq<char>)
    ensures
        urls_in(text) == words(text).filter_map(|w: Seq<char>| link_of_word(w)),
        forall|k: int| 0 <= k < words(text).len() && #[trigger] link_of_word(words(text)[k]) is Some
            ==> urls_in(text).contains(link_of_word(words(text)[k]).unwrap()),
{
    lemma_links_are_every_word_link(words(text));
    let ws = words(text);
    assert forall|k: int| 0 <= k < ws.len() && #[trigger] link_of_word(ws[k]) is Some implies urls_in(
        text,
    ).contains(link_of_word(ws[k]).unwrap()) by {
        lemma_word_link_kept(ws, k);
    }
}

proof fn lemma_word_link_kept(ws: Seq<Seq<char>>, k: int)
    requires
        0 <= k < ws.len(),
        link_of_word(ws[k]) is Some,
    ensures
        links_in(ws).contains(link_of_word(ws[k]).unwrap()),
    decreases ws.len(),
{
    let d = ws.drop_last();
    if k == ws.len() - 1 {
        assert(links_in(ws).last() == link_in(ws[k]));
    } else {
        assert(d[k] == ws[k]);
        lemma_word_link_kept(d, k);
        let t = choose|t: int| 0 <= t < links_in(d).len() && links_in(d)[t] == link_of_word(ws[k]).unwrap();
        assert(links_in(ws)[t] == links_in(d)[t]);
    }
}

proof fn lemma_one_retry(a: AppView, i: int, n: int)
    requires
        0 <= i < a.jobs.len(),
        0 <= n <= a.jobs.len(),
        forall|t: int| 0 <= t < a.jobs.len() ==> (#[trigger] a.retries(false, t) <==> t == i),
    ensures
        a.retry_ids(false, n) == if n > i { seq![a.jobs[i].id] } else { Seq::<usize>::empty() },
    decreases n,
{
    if n > 0 {
        lemma_one_retry(a, i, n - 1);
        if n - 1 == i {
            assert(Seq::<usize>::empty().push(a.jobs[i].id) =~= seq![a.jobs[i].id]);
        }
    }
}

proof fn lemma_no_retry(a: AppView, n: int)
    requires
        0 <= n <= a.jobs.len(),
        forall|t: int| 0 <= t < a.jobs.len() ==> !#[trigger] a.retries(false, t),
    ensures
        a.retry_ids(false, n) == Seq::<usize>::empty(),
    decreases n,
{
    if n > 0 {
        lemma_no_retry(a, n - 1);
    }
}

/// `r` on a selected row that has ended (done, failed or canceled) queues it
/// again from scratch under the same id and link, reports that id to the
/// caller, and leaves every other row alone.
pub proof fn retry_requeues_an_ended_row(a: AppView, i: usize)
    requires
        i < a.jobs.len() <= usize::MAX,
        a.selected == Some(i),
        a.jobs[i as int].status is Done || a.jobs[i as int].status is Failed || a.jobs[i as int].status is Canceled,
    ensures
        a.retry_ids(false, a.jobs.len() as int) == seq![a.jobs[i as int].id],
        a.after_retry(false).jobs.len() == a.jobs.len(),
        a.after_retry(false).jobs[i as int].status == Status::Queued,
        a.after_retry(false).jobs[i as int].id == a.jobs[i as int].id,
        a.after_retry(false).jobs[i as int].url == a.jobs[i as int].url,
        a.after_retry(false).jobs[i as int].error is None,
        a.after_retry(false).jobs[i as int].file is None,
        a.after_retry(false).jobs[i as int].done == 0,
        a.after_retry(false).jobs[i as int].got_bytes == false,
        a.after_retry(false).jobs[i as int].cached == false,
        forall|t: int| 0 <= t < a.jobs.len() && t != i as int ==> #[trigger] a.after_retry(false).jobs[t] == a.jobs[t],
{
    lemma_one_retry(a, i as int, a.jobs.len() as int);
}

/// `r` takes nothing when the selected row is running or still waiting: the
/// queue stays as it is and no id is reported.
pub proof fn retry_leaves_live_rows(a: AppView, i: usize)
    requires
        i < a.jobs.len() <= usize::MAX,
        a.selected == Some(i),
        a.jobs[i as int].status is Queued || a.jobs[i as int].status is Fetching || a.jobs[i as int].status is Downloading
            || a.jobs[i as int].status is Converting,
    ensures
        a.retry_ids(false, a.jobs.len() as int).len() == 0,
        a.after_retry(false).jobs == a.jobs,
{
    lemma_no_retry(a, a.jobs.len() as int);
}

/// `d` on a selected row that is running (fetching, downloading or
/// converting) keeps the row, marks it canceled with the reason "canceled",
/// and names its job as the process to stop; no other row changes.
pub proof fn cancel_stops_a_running_row(a: AppView, i: usize)
    requires
        i < a.jobs.len() <= usize::MAX,
        a.selected == Some(i),
        a.jobs[i as int].status is Fetching || a.jobs[i as int].status is Downloading || a.jobs[i as int].status is Converting,
    ensures
        a.cancel_target() == Some(a.jobs[i as int].id),
        a.after_cancel_or_remove().jobs.len() == a.jobs.len(),
        a.after_cancel_or_remove().jobs[i as int] == (JobView {
            status: Status::Canceled,
            error: Some("canceled"@),
            ..a.jobs[i as int]
        }),
        forall|t: int| 0 <= t < a.jobs.len() && t != i as int ==> #[trigger] a.after_cancel_or_remove().jobs[t] == a.jobs[t],
{
}

/// `d` on a selected row that is not running takes that row out of the queue,
/// keeps the others in order, and stops no process.
pub proof fn remove_drops_an_idle_row(a: AppView, i: usize)
    requires
        i < a.jobs.len() <= usize::MAX,
        a.selected == Some(i),
        a.jobs[i as int].status is Queued || a.jobs[i as int].status is Done || a.jobs[i as int].status is Failed
            || a.jobs[i as int].status is Canceled,
    ensures
        a.cancel_target() is None,
        a.after_cancel_or_remove().jobs == a.jobs.remove(i as int),
{
}

/// Outside the link prompt and without control held, the arrows (and `k`,
/// `j`) move the selection of the focused list by one row, stopping at its
/// ends; page keys move by ten, Home and End to the ends.
pub proof fn arrows_move_the_selection(a: AppView, k: Key, armed: bool)
    requires
        !(a.focus is Input),
        !k.ctrl,
    ensures
        (k.code == KeyCode::Up || is_char(k.code, 'k')) ==> a.key_step(k, armed) == (
        a.after_move(-1), EffectView::Nothing),
        (k.code == KeyCode::Down || is_char(k.code, 'j')) ==> a.key_step(k, armed) == (
        a.after_move(1), EffectView::Nothing),
        k.code == KeyCode::PageUp ==> a.key_step(k, armed) == (a.after_move(-10), EffectView::Nothing),
        k.code == KeyCode::PageDown ==> a.key_step(k, armed) == (a.after_move(10), EffectView::Nothing),
        k.code == KeyCode::Home ==> a.key_step(k, armed) == (a.after_move(-9999), EffectView::Nothing),
        k.code == KeyCode::End ==> a.key_step(k, armed) == (a.after_move(9999), EffectView::Nothing),
        // In the queue: one row up or down, within the rows.
        a.focus is Queue && a.jobs.len() > 0 && (a.selected matches Some(s) && s < a.jobs.len())
            && (k.code == KeyCode::Up || is_char(k.code, 'k')) ==> a.key_step(k, armed).0.selected
            == Some(if a.selected.unwrap() > 0 { (a.selected.unwrap() - 1) as usize } else { 0 }),
        a.focus is Queue && a.jobs.len() > 0 && (a.selected matches Some(s) && s < a.jobs.len())
            && (k.code == KeyCode::Down || is_char(k.code, 'j')) ==> a.key_step(k, armed).0.selected
            == Some(if a.selected.unwrap() + 1 < a.jobs.len() { (a.selected.unwrap() + 1) as usize } else { a.selected.unwrap() }),
        // In the staging panel: the same over the staged links.
        a.focus is Add && a.staged_sel < a.staged.len() && (k.code == KeyCode::Up || is_char(k.code, 'k'))
            ==> a.key_step(k, armed).0.staged_sel == if a.staged_sel > 0 { (a.staged_sel - 1) as usize } else { 0 },
        a.focus is Add && a.staged_sel < a.staged.len() && (k.code == KeyCode::Down || is_char(k.code, 'j'))
            ==> a.key_step(k, armed).0.staged_sel == if a.staged_sel + 1 < a.staged.len() { (a.staged_sel + 1) as usize } else { a.staged_sel },
        // Moving changes nothing but the selection.
        (k.code == KeyCode::Up || k.code == KeyCode::Down) ==> a.key_step(k, armed).0.jobs == a.jobs
            && a.key_step(k, armed).0.staged == a.staged && a.key_step(k, armed).0.focus == a.focus,
{
}

/// A message from yt-dlp lands on the job it names and says what it says:
/// metadata sets the uploader and title, progress the byte counts, a file
/// line the file and its size, an error line the error, a log line the last
/// log line. Other jobs are untouched.
pub proof fn messages_land_on_their_job(a: AppView, i: int, u: UpdateView)
    requires
        a.wf(),
        0 <= i < a.jobs.len(),
        a.jobs[i].id == u.job_id(),
    ensures
        a.after_update(u).jobs.len() == a.jobs.len(),
        forall|t: int| 0 <= t < a.jobs.len() && t != i ==> #[trigger] a.after_update(u).jobs[t] == a.jobs[t],
        a.after_update(u).jobs[i].id == a.jobs[i].id,
        a.after_update(u).jobs[i].url == a.jobs[i].url,
        u matches UpdateView::Meta { uploader, title, .. } ==> a.after_update(u).jobs[i].uploader
            == uploader && a.after_update(u).jobs[i].title == title && a.after_update(u).jobs[i].status
            == a.jobs[i].status,
        u matches UpdateView::Progress { done, total, eta, .. } ==> a.after_update(u).jobs[i].done
            == done && a.after_update(u).jobs[i].eta == eta && (total is Some ==> a.after_update(
            u,
        ).jobs[i].total == total) && (done > 0 ==> a.after_update(u).jobs[i].got_bytes),
        u matches UpdateView::File { path, size, .. } ==> a.after_update(u).jobs[i].file == Some(path)
            && a.after_update(u).jobs[i].size == size,
        u matches UpdateView::Error { msg, .. } ==> a.after_update(u).jobs[i].error == Some(msg),
        u matches UpdateView::Log { line, .. } ==> a.after_update(u).jobs[i].log.last() == line,
        u is Progress ==> a.after_update(u).jobs[i].status == if a.jobs[i].status is Converting {
            Status::Converting
        } else {
            Status::Downloading
        },
        u matches UpdateView::Post { status, .. } ==> a.after_update(u).jobs[i] == if status
            == "finished"@ {
            a.jobs[i]
        } else {
            JobView { status: Status::Converting, eta: None, ..a.jobs[i] }
        },
{
    lemma_index_of_id(a.jobs, u.job_id(), 0);
    let k = index_of_id(a.jobs, u.job_id(), 0).unwrap();
    if k < i {
        assert(a.jobs[k].id < a.jobs[i].id);
    } else if k > i {
        assert(a.jobs[i].id < a.jobs[k].id);
    }
    assert(k == i);
}

proof fn lemma_ready_urls_filter(st: Seq<StagedView>)
    ensures
        ready_urls(st) == st.filter_map(|x: StagedView| if x.dup { None } else { Some(x.url) }),
    decreases st.len(),
{
    if st.len() > 0 {
        lemma_ready_urls_filter(st.drop_last());
        let f = |x: StagedView| if x.dup { None } else { Some(x.url) };
        let r = st.drop_last().filter_map(f);
        if !st.last().dup {
            assert(r.push(st.last().url) =~= r + seq![st.last().url]);
        }
    }
}

/// Start queues, after the jobs already there and in staging order, one new
/// job for each staged link that is not already queued, numbered on from
/// `next_id`, fresh and waiting; the staging panel is left empty.
pub proof fn start_queues_each_ready_link(a: AppView)
    requires
        a.staged.len() > 0,
        a.room_for_staged(),
    ensures
        ({
            let ready = a.staged.filter_map(|x: StagedView| if x.dup { None } else { Some(x.url) });
            let b = a.after_start();
            &&& b.staged.len() == 0
            &&& b.jobs.len() == a.jobs.len() + ready.len()
            &&& b.next_id == a.next_id + ready.len()
            &&& forall|t: int| 0 <= t < a.jobs.len() ==> #[trigger] b.jobs[t] == a.jobs[t]
            &&& forall|k: int|
                0 <= k < ready.len() ==> {
                    let j = #[trigger] b.jobs[a.jobs.len() + k];
                    &&& j.url == ready[k]
                    &&& j.id == a.next_id + k
                    &&& j.status is Queued
                    &&& j.error is None
                    &&& j.file is None
                    &&& j.done == 0
                }
        }),
{
    lemma_ready_urls_filter(a.staged);
    crate::app::lemma_ready_urls(a.staged);
}

proof fn lemma_stage_links_from_text(st: Seq<StagedView>, jobs: Seq<JobView>, urls: Seq<Seq<char>>)
    ensures
        stage_links(st, jobs, urls).len() >= st.len(),
        forall|i: int|
            st.len() <= i < stage_links(st, jobs, urls).len() ==> urls.contains(
                (#[trigger] stage_links(st, jobs, urls)[i]).url,
            ),
    decreases urls.len(),
{
    if urls.len() > 0 {
        let d = urls.drop_last();
        lemma_stage_links_from_text(st, jobs, d);
        let before = stage_links(st, jobs, d);
        let after = stage_links(st, jobs, urls);
        assert forall|i: int| st.len() <= i < after.len() implies urls.contains((#[trigger] after[i]).url) by {
            if i < before.len() {
                assert(after[i] == before[i]);
                let t = choose|t: int| 0 <= t < d.len() && d[t] == before[i].url;
                assert(urls[t] == d[t]);
            } else {
                assert(urls[urls.len() - 1] == after[i].url);
            }
        }
    }
}

/// Staging adds only links taken from the text: every link it adds is one of
/// the text's links, as written there.
pub proof fn stage_adds_only_links_of_the_text(a: AppView, text: Seq<char>)
    ensures
        a.after_stage(text).staged.len() >= a.staged.len(),
        forall|i: int|
            a.staged.len() <= i < a.after_stage(text).staged.len() ==> urls_in(text).contains(
                (#[trigger] a.after_stage(text).staged[i]).url,
            ),
{
    lemma_stage_links_from_text(a.staged, a.jobs, urls_in(text));
}

/// `d` in the staging panel drops exactly the selected link and keeps the
/// rest in order; the queue is untouched.
pub proof fn drop_removes_the_selected_link(a: AppView)
    requires
        a.staged_sel < a.staged.len(),
    ensures
        a.after_drop_staged().staged == a.staged.remove(a.staged_sel as int),
        a.after_drop_staged().jobs == a.jobs,
        a.after_drop_staged().staged.len() > 0 ==> a.after_drop_staged().staged_sel
            < a.after_drop_staged().staged.len(),
{
}

/// `p` opens the selected row's file when it has one, and changes nothing
/// then; without a file nothing is opened and the queue is untouched.
pub proof fn play_opens_the_selected_file(a: AppView, i: usize)
    requires
        a.selected == Some(i),
        i < a.jobs.len(),
    ensures
        a.jobs[i as int].file matches Some(f) ==> a.play_step() == (a, EffectView::Open(f)),
        a.jobs[i as int].file is None ==> a.play_step().1 == EffectView::Nothing && a.play_step().0.jobs
            == a.jobs,
{
}

/// `--cookies NAME` picks the choice whose name it is, for each of the four
/// browsers; "none" names no browser.
pub proof fn cookie_names_lead_back(i: usize)
    requires
        1 <= i < 5,
    ensures
        cookie_pos(cookie_label(i)) == Some(i),
        cookie_pos("none"@) is None,
{
    reveal_strlit("chromium");
    reveal_strlit("firefox");
    reveal_strlit("chrome");
    reveal_strlit("brave");
    reveal_strlit("none");
    assert("chromium"@.len() == 8);
    assert("firefox"@.len() == 7);
    assert("chrome"@.len() == 6);
    assert("brave"@.len() == 5);
    assert("none"@.len() == 4);
}

proof fn lemma_unfinished_filter(jobs: Seq<JobView>)
    ensures
        unfinished(jobs) == jobs.filter_map(|j: JobView| if j.status is Done { None } else { Some(j) }),
    decreases jobs.len(),
{
    if jobs.len() > 0 {
        lemma_unfinished_filter(jobs.drop_last());
        let f = |j: JobView| if j.status is Done { None } else { Some(j) };
        let r = jobs.drop_last().filter_map(f);
        if !(jobs.last().status is Done) {
            assert(r.push(jobs.last()) =~= r + seq![jobs.last()]);
        }
    }
}

/// `x` in the queue keeps exactly the jobs that are not done, in their order.
pub proof fn clear_keeps_the_rest_in_order(a: AppView)
    ensures
        a.after_clear().jobs == a.jobs.filter_map(|j: JobView| if j.status is Done { None } else { Some(j) }),
        a.after_clear().staged == a.staged,
{
    lemma_unfinished_filter(a.jobs);
}

/// Starting job `i`'s process makes it fetching and changes nothing else; when
/// the process cannot be started the job fails and the reason is kept after
/// "could not start yt-dlp: ".
pub proof fn starts_and_failed_starts(a: AppView, i: int, reason: Seq<char>)
    requires
        0 <= i < a.jobs.len(),
    ensures
        a.with_status(i, Status::Fetching).jobs == a.jobs.update(i, JobView { status: Status::Fetching, ..a.jobs[i] }),
        a.start_failed_at(i, reason).jobs.len() == a.jobs.len(),
        a.start_failed_at(i, reason).jobs[i].status is Failed,
        a.start_failed_at(i, reason).jobs[i].id == a.jobs[i].id,
        a.start_failed_at(i, reason).jobs[i].error == Some("could not start yt-dlp: "@ + reason),
        forall|t: int| 0 <= t < a.jobs.len() && t != i ==> #[trigger] a.start_failed_at(i, reason).jobs[t] == a.jobs[t],
{
}

/// A click on a staged link selects it and focuses the staging panel; a click
/// on a queue row selects that row (counting from the first row shown) and
/// focuses the queue. Clicks below the last row move no selection.
pub proof fn clicks_select_the_row_under_them(a: AppView, m: Mouse)
    requires
        m.kind is LeftDown,
        !a.hit_start.holds(m.column, m.row),
    ensures
        a.hit_staged.holds(m.column, m.row) ==> {
            let i = m.row - a.hit_staged.y;
            &&& a.mouse_step(m).focus is Add
            &&& a.mouse_step(m).staged_sel == if i < a.staged.len() { i as usize } else { a.staged_sel }
            &&& a.mouse_step(m).jobs == a.jobs
        },
        !a.hit_staged.holds(m.column, m.row) && a.hit_rows.holds(m.column, m.row) ==> {
            let i = a.offset + (m.row - a.hit_rows.y);
            &&& a.mouse_step(m).focus is Queue
            &&& a.mouse_step(m).selected == if i < a.jobs.len() { Some(i as usize) } else { a.selected }
            &&& a.mouse_step(m).jobs == a.jobs
        },
        !a.hit_staged.holds(m.column, m.row) && !a.hit_rows.holds(m.column, m.row) ==> a.mouse_step(m) == a,
{
}

/// In the link prompt a character is added to the end of the text,
/// Backspace takes the last one off, Esc empties the prompt and leaves it,
/// and Enter stages what was typed and leaves the prompt empty.
pub proof fn typing_in_the_prompt(a: AppView, k: Key)
    requires
        a.focus is Input,
        !k.ctrl,
    ensures
        k.code matches KeyCode::Char(c) ==> a.key_step(k, false).0 == (AppView { input: a.input.push(c), ..a }),
        k.code == KeyCode::Backspace && a.input.len() > 0 ==> a.key_step(k, false).0.input == a.input.drop_last(),
        k.code == KeyCode::Esc ==> a.key_step(k, false).0.input.len() == 0 && a.key_step(k, false).0.focus is Add
            && a.key_step(k, false).0.staged == a.staged,
        k.code == KeyCode::Enter ==> a.key_step(k, false).0.input.len() == 0 && a.key_step(k, false).0.focus is Add
            && a.key_step(k, false).0.staged == a.after_stage(a.input).staged
            && a.key_step(k, false).0.jobs == a.jobs,
        a.key_step(k, false).1 == EffectView::Nothing,
{
}

/// A download that ends with exit code 0 adds its file's size to the
/// session's total; any other end adds nothing.
pub proof fn finished_downloads_count_their_bytes(a: AppView, i: int, code: Option<i32>)
    requires
        a.wf(),
        0 <= i < a.jobs.len(),
    ensures
        ({
            let u = UpdateView::Exit { id: a.jobs[i].id, code };
            let added: u64 = if code == Some(0i32) && !(a.jobs[i].status is Canceled) {
                match a.jobs[i].size {
                    Some(n) => n,
                    None => 0,
                }
            } else {
                0
            };
            a.after_update(u).session_bytes == a.session_bytes.wrapping_add(added)
        }),
{
    let u = UpdateView::Exit { id: a.jobs[i].id, code };
    lemma_index_of_id(a.jobs, u.job_id(), 0);
    let k = index_of_id(a.jobs, u.job_id(), 0).unwrap();
    if k < i {
        assert(a.jobs[k].id < a.jobs[i].id);
    } else if k > i {
        assert(a.jobs[i].id < a.jobs[k].id);
    }
}

// ---- texts read back ----------------------------------------------------------

/// The number a run of decimal digits writes.
pub open spec fn number_of(s: Seq<char>) -> nat
    decreases s.len(),
{
    if s.len() == 0 {
        0
    } else {
        number_of(s.drop_last()) * 10 + (s.last() as int - 48) as nat
    }
}

pub open spec fn all_digits(s: Seq<char>) -> bool {
    forall|i: int| 0 <= i < s.len() ==> '0' <= #[trigger] s[i] <= '9'
}

proof fn lemma_dec_reads_back(n: nat)
    ensures
        number_of(dec(n)) == n,
        all_digits(dec(n)),
        dec(n).len() >= 1,
    decreases n,
{
    assert(digit(n % 10) as int == n % 10 + 48);
    if n < 10 {
        assert(dec(n).drop_last() =~= Seq::<char>::empty());
        assert(number_of(Seq::<char>::empty()) == 0);
        assert(dec(n).last() == digit(n));
    } else {
        lemma_dec_reads_back(n / 10);
        let d = dec(n / 10);
        assert(dec(n).drop_last() =~= d);
        assert(dec(n).last() == digit(n % 10));
        assert(number_of(dec(n)) == number_of(d) * 10 + (n % 10));
        assert forall|i: int| 0 <= i < dec(n).len() implies '0' <= #[trigger] dec(n)[i] <= '9' by {
            if i < d.len() {
                assert(dec(n)[i] == d[i]);
            }
        }
    }
}

proof fn lemma_two_digits_read_back(n: nat)
    requires
        n < 100,
    ensures
        number_of(two_digits(n)) == n,
        all_digits(two_digits(n)),
        two_digits(n).len() == 2,
{
    lemma_dec_reads_back(n);
    if n < 10 {
        let t = two_digits(n);
        assert(t.drop_last() =~= seq!['0']);
        assert(seq!['0'].drop_last() =~= Seq::<char>::empty());
        assert(number_of(Seq::<char>::empty()) == 0);
        assert(('0' as int) == 48);
        assert(number_of(seq!['0']) == 0);
    } else {
        lemma_dec_reads_back(n / 10);
        assert(dec(n / 10).len() == 1);
    }
}

/// A duration reads back as the seconds it was made from: below an hour,
/// minutes, a colon and two digits of seconds under 60; from an hour up,
/// hours, minutes under 60 and seconds under 60, each after a colon in two
/// digits.
pub proof fn durations_read_back(secs: nat)
    ensures
        ({
            let t = duration_text(secs);
            let n = t.len();
            &&& n >= 4
            &&& t[n - 3] == ':'
            &&& all_digits(t.skip(n - 2))
            &&& number_of(t.skip(n - 2)) < 60
            &&& secs < 3600 ==> all_digits(t.take(n - 3)) && number_of(t.take(n - 3)) * 60
                + number_of(t.skip(n - 2)) == secs
            &&& secs >= 3600 ==> {
                &&& n >= 7
                &&& t[n - 6] == ':'
                &&& all_digits(t.take(n - 6))
                &&& all_digits(t.subrange(n - 5, n - 3))
                &&& number_of(t.subrange(n - 5, n - 3)) < 60
                &&& number_of(t.take(n - 6)) * 3600 + number_of(t.subrange(n - 5, n - 3)) * 60
                    + number_of(t.skip(n - 2)) == secs
            }
        }),
{
    let t = duration_text(secs);
    let n = t.len();
    lemma_two_digits_read_back(secs % 60);
    let ss = two_digits(secs % 60);
    if secs >= 3600 {
        lemma_dec_reads_back(secs / 3600);
        lemma_two_digits_read_back((secs / 60) % 60);
        let h = dec(secs / 3600);
        let mm = two_digits((secs / 60) % 60);
        assert(t =~= h + seq![':'] + mm + seq![':'] + ss);
        assert(t.skip(n - 2) =~= ss);
        assert(t.subrange(n - 5, n - 3) =~= mm);
        assert(t.take(n - 6) =~= h);
        assert((secs / 3600) * 3600 + ((secs / 60) % 60) * 60 + secs % 60 == secs) by (nonlinear_arith);
    } else {
        lemma_dec_reads_back(secs / 60);
        let m = dec(secs / 60);
        assert(t =~= m + seq![':'] + ss);
        assert(t.skip(n - 2) =~= ss);
        assert(t.take(n - 3) =~= m);
    }
}

/// A size reads back as the byte count it was made from: below 1 KiB the
/// whole number of bytes and " B"; from there, the largest of KiB, MiB, GiB
/// that fits, with a value to one decimal that is the byte count rounded to
/// the nearest tenth of that unit (counts up to 2^53, where `f64` is exact).
#[verifier::spinoff_prover]
#[verifier::rlimit(40)]
pub proof fn sizes_read_back(n: nat)
    requires
        n < 0x20000000000000,
    ensures
        ({
            let s = size_text(n);
            let len = s.len();
            &&& n < 1024 ==> {
                &&& len >= 3
                &&& s.skip(len - 2) == " B"@
                &&& all_digits(s.take(len - 2))
                &&& number_of(s.take(len - 2)) == n
            }
            &&& n >= 1024 ==> {
                let unit: nat = if n < 1048576 { 1024 } else if n < 1073741824 { 1048576 } else { 1073741824 };
                let x = number_of(s.take(len - 6)) * 10 + (s[len - 5] as int - 48);
                &&& len >= 7
                &&& s.skip(len - 3) == if n < 1048576 {
                    "KiB"@
                } else if n < 1073741824 {
                    "MiB"@
                } else {
                    "GiB"@
                }
                &&& s[len - 6] == '.'
                &&& s[len - 4] == ' '
                &&& all_digits(s.take(len - 6))
                &&& '0' <= s[len - 5] <= '9'
                &&& 2 * x * unit <= 20 * n + unit
                &&& 20 * n <= 2 * x * unit + unit
            }
        }),
{
    reveal_strlit(" B");
    reveal_strlit("KiB");
    reveal_strlit("MiB");
    reveal_strlit("GiB");
    let s = size_text(n);
    if n < 1024 {
        lemma_dec_reads_back(n);
        assert(s.take(s.len() - 2) =~= dec(n));
        assert(s.skip(s.len() - 2) =~= " B"@);
    } else {
        crate::text::lemma_pow2_53();
        assert(dropped_bits(n) == 0);
        assert(pow2(0) == 1);
        assert(as_double(n) == n);
        let u = size_unit(n);
        let b = unit_bytes(u);
        let t = div_round_even(n * 10, b);
        let q = (n * 10) / b;
        let r = (n * 10) % b;
        assert(n * 10 == q * b + r) by (nonlinear_arith)
            requires b > 0, q == (n * 10) / b, r == (n * 10) % b;
        lemma_dec_reads_back(t / 10);
        assert(digit(t % 10) as int == t % 10 + 48);
        let i = dec(t / 10);
        assert(s =~= i + seq!['.', digit(t % 10), ' '] + unit_name(u));
        assert(s.take(s.len() - 6) =~= i);
        assert(s.skip(s.len() - 3) =~= unit_name(u));
        assert(s[s.len() - 5] == digit(t % 10));
        assert((t / 10) * 10 + t % 10 == t);
        let x = number_of(s.take(s.len() - 6)) * 10 + (s[s.len() - 5] as int - 48);
        assert(x == t);
        assert(0 <= r < b) by (nonlinear_arith)
            requires b > 0, r == (n * 10) % b;
        if 2 * r > b || (2 * r == b && q % 2 == 1) {
            assert(t == q + 1);
            assert(2 * x * b <= 20 * n + b && 20 * n <= 2 * x * b + b) by (nonlinear_arith)
                requires x == q + 1, n * 10 == q * b + r, 2 * r >= b, r < b, b > 0;
        } else {
            assert(t == q);
            assert(2 * x * b <= 20 * n + b && 20 * n <= 2 * x * b + b) by (nonlinear_arith)
                requires x == q, n * 10 == q * b + r, 2 * r <= b, r >= 0, b > 0;
        }
    }
}

/// A text that fits is shown whole. One that does not is cut to exactly the
/// width: `truncate` keeps its start and ends in `…`, `tail` (from a width
/// of 4) starts with `…` and keeps its end.
pub proof fn cut_texts_fill_the_width(s: Seq<char>, width: nat)
    ensures
        s.len() <= width ==> truncate_of(s, width) == s && tail_of(s, width) == s,
        s.len() > width && width >= 1 ==> {
            let t = truncate_of(s, width);
            &&& t.len() == width
            &&& t.last() == '…'
            &&& t.take(width - 1) == s.take(width - 1)
        },
        s.len() > width && width >= 4 ==> {
            let t = tail_of(s, width);
            &&& t.len() == width
            &&& t[0] == '…'
            &&& t.skip(1) == s.skip(s.len() - (width - 1))
        },
{
    if s.len() > width && width >= 1 {
        assert(truncate_of(s, width).take(width - 1) =~= s.take(width - 1));
    }
    if s.len() > width && width >= 4 {
        assert(tail_of(s, width).skip(1) =~= s.skip(s.len() - (width - 1)));
    }
}

/// The staging list scrolls just enough to keep the selected link on screen:
/// it shows from the first link while that is enough, and otherwise puts the
/// selection on the last line; the count of links below is what lies past it.
pub proof fn the_selection_stays_on_screen(sel: nat, len: nat, rows: nat)
    requires
        rows > 0,
    ensures
        crate::view::first_row(sel, rows) <= sel < crate::view::first_row(sel, rows) + rows,
        sel < rows ==> crate::view::first_row(sel, rows) == 0,
        sel >= rows ==> sel == crate::view::first_row(sel, rows) + rows - 1,
        match crate::view::hidden_rows(len, crate::view::first_row(sel, rows), rows) {
            Some(k) => k > 0 && crate::view::first_row(sel, rows) + rows + k == len,
            None => len <= crate::view::first_row(sel, rows) + rows,
        },
{
}

proof fn lemma_find_char_at(s: Seq<char>, c: char, k: int, i: int)
    requires
        0 <= i <= k < s.len(),
        s[k] == c,
        forall|t: int| 0 <= t < k ==> s[t] != c,
    ensures
        find_from(s, seq![c], i) == Some(k),
    decreases k - i,
{
    if i < k {
        assert(!occurs_at(s, seq![c], i)) by {
            if occurs_at(s, seq![c], i) {
                assert(s.subrange(i, i + 1)[0] == s[i]);
            }
        }
        lemma_find_char_at(s, c, k, i + 1);
    } else {
        assert(s.subrange(k, k + 1) =~= seq![c]);
    }
}

proof fn lemma_no_char(s: Seq<char>, c: char, i: int)
    requires
        0 <= i <= s.len(),
        !s.contains(c),
    ensures
        find_from(s, seq![c], i) is None,
    decreases s.len() - i,
{
    if i < s.len() {
        assert(!occurs_at(s, seq![c], i)) by {
            if occurs_at(s, seq![c], i) {
                assert(s.subrange(i, i + 1)[0] == s[i]);
            }
        }
        lemma_no_char(s, c, i + 1);
    }
}

/// The short form of a link is the link without its scheme, `www.`, query and
/// trailing slash: `https://www.` + `rest` + `/?query` shortens to `rest`
/// for any `rest` that does not itself start like a link or with `www.`,
/// holds no `?` and does not end in `/`.
pub proof fn short_links_drop_scheme_www_query_and_slash(rest: Seq<char>, query: Seq<char>)
    requires
        !starts_with(rest, "www."@),
        !starts_with(rest, "http://"@),
        !starts_with(rest, "https://"@),
        !rest.contains('?'),
        rest.len() > 0 ==> rest.last() != '/',
    ensures
        short_url_of("https://www."@ + rest + "/?"@ + query) == rest,
        short_url_of("http://"@ + rest) == rest,
        short_url_of(rest) == rest,
{
    reveal_strlit("https://www.");
    reveal_strlit("/?");
    reveal_strlit("https://");
    reveal_strlit("http://");
    reveal_strlit("www.");
    // The long form.
    let s = "https://www."@ + rest + "/?"@ + query;
    let a = s.skip(8);
    assert(starts_with(s, "https://"@)) by {
        assert(s.take(8) =~= "https://"@);
    }
    assert(a =~= "www."@ + rest + "/?"@ + query);
    assert(!starts_with(a, "https://"@)) by {
        if starts_with(a, "https://"@) {
            assert(a.take(8)[0] == a[0]);
            assert(a[0] == 'w');
        }
    }
    assert(strip_all(a, "https://"@) == a);
    assert(strip_all(s, "https://"@) == a);
    assert(!starts_with(a, "http://"@)) by {
        if starts_with(a, "http://"@) {
            assert(a.take(7)[0] == a[0]);
            assert(a[0] == 'w');
        }
    }
    assert(strip_all(a, "http://"@) == a);
    let b = a.skip(4);
    assert(starts_with(a, "www."@)) by {
        assert(a.take(4) =~= "www."@);
    }
    assert(b =~= rest + "/?"@ + query);
    assert(!starts_with(b, "www."@)) by {
        if starts_with(b, "www."@) {
            if rest.len() >= 4 {
                assert(rest.take(4) =~= b.take(4));
            } else {
                assert(b[rest.len() as int] == '/');
                assert("www."@[rest.len() as int] != '/');
            }
        }
    }
    assert(strip_all(b, "www."@) == b);
    lemma_find_char_at(b, '?', rest.len() as int + 1, 0);
    assert(before(b, '?') =~= rest.push('/'));
    assert(rest.push('/').drop_last() =~= rest);
    assert(in_class(Class::Slash, '/'));
    assert(trim_end_in(rest.push('/'), Class::Slash) == trim_end_in(rest, Class::Slash));
    assert(trim_end_in(rest, Class::Slash) == rest);
    // Without `www.` and query.
    let s2 = "http://"@ + rest;
    assert(!starts_with(s2, "https://"@)) by {
        if starts_with(s2, "https://"@) {
            assert(s2.take(8)[4] == s2[4]);
            assert(s2[4] == ':');
        }
    }
    assert(strip_all(s2, "https://"@) == s2);
    assert(starts_with(s2, "http://"@)) by {
        assert(s2.take(7) =~= "http://"@);
    }
    assert(s2.skip(7) =~= rest);
    assert(strip_all(rest, "http://"@) == rest);
    assert(strip_all(s2, "http://"@) == rest);
    assert(strip_all(rest, "www."@) == rest);
    lemma_no_char(rest, '?', 0);
    assert(before(rest, '?') == rest);
}

// ---- the command line ---------------------------------------------------------

/// An argument that is not one of the options.
pub open spec fn plain_arg(a: Seq<char>) -> bool {
    a != "-c"@ && a != "--cookies"@ && a != "-o"@ && a != "--out"@ && a != "-h"@ && a != "--help"@
}

proof fn lemma_plain_args(args: Seq<Seq<char>>, i: int, out: Option<Seq<char>>, cookies: usize, urls: Seq<Seq<char>>)
    requires
        0 <= i <= args.len(),
        forall|k: int| i <= k < args.len() ==> plain_arg(#[trigger] args[k]),
    ensures
        crate::cli::read_args(args, i, out, cookies, urls) == (crate::cli::CliView::Run {
            out,
            cookies,
            urls: urls + args.skip(i),
        }),
    decreases args.len() - i,
{
    if i < args.len() {
        assert(plain_arg(args[i]));
        lemma_plain_args(args, i + 1, out, cookies, urls.push(args[i]));
        assert(urls.push(args[i]) + args.skip(i + 1) =~= urls + args.skip(i));
    } else {
        assert(urls + args.skip(i) =~= urls);
    }
}

/// Arguments that are not options are the links to stage, all of them, in
/// order. `--out DIR` names the folder, `--cookies NAME` picks the choice
/// named (or is refused when no browser has that name), and `--help` asks for
/// the usage, whatever follows.
pub proof fn command_line_reads_links_and_options(rest: Seq<Seq<char>>, value: Seq<char>)
    requires
        forall|k: int| 0 <= k < rest.len() ==> plain_arg(#[trigger] rest[k]),
    ensures
        crate::cli::read_args(rest, 0, None, 0, seq![]) == (crate::cli::CliView::Run {
            out: None,
            cookies: 0,
            urls: rest,
        }),
        crate::cli::read_args(seq!["--out"@, value] + rest, 0, None, 0, seq![]) == (crate::cli::CliView::Run {
            out: Some(value),
            cookies: 0,
            urls: rest,
        }),
        cookie_pos(value) matches Some(c) ==> crate::cli::read_args(seq!["--cookies"@, value] + rest, 0, None, 0, seq![])
            == (crate::cli::CliView::Run { out: None, cookies: c, urls: rest }),
        cookie_pos(value) is None ==> crate::cli::read_args(seq!["--cookies"@, value] + rest, 0, None, 0, seq![])
            == crate::cli::CliView::UnknownBrowser(value),
        crate::cli::read_args(seq!["--help"@] + rest, 0, None, 0, seq![]) == crate::cli::CliView::Help,
{
    reveal_strlit("-c");
    reveal_strlit("--cookies");
    reveal_strlit("-o");
    reveal_strlit("--out");
    reveal_strlit("-h");
    reveal_strlit("--help");
    lemma_plain_args(rest, 0, None, 0, seq![]);
    assert(Seq::<Seq<char>>::empty() + rest.skip(0) =~= rest);
    let o = seq!["--out"@, value] + rest;
    assert(o[0] == "--out"@);
    assert(o[1] == value);
    assert forall|k: int| 2 <= k < o.len() implies plain_arg(#[trigger] o[k]) by {
        assert(o[k] == rest[k - 2]);
    }
    lemma_plain_args(o, 2, Some(value), 0, seq![]);
    assert(o.skip(2) =~= rest);
    assert(Seq::<Seq<char>>::empty() + o.skip(2) =~= rest);
    let c = seq!["--cookies"@, value] + rest;
    assert(c[0] == "--cookies"@);
    assert(c[1] == value);
    assert(c[0] != "-c"@);
    assert forall|k: int| 2 <= k < c.len() implies plain_arg(#[trigger] c[k]) by {
        assert(c[k] == rest[k - 2]);
    }
    if let Some(ck) = cookie_pos(value) {
        lemma_plain_args(c, 2, None, ck, seq![]);
        assert(c.skip(2) =~= rest);
        assert(Seq::<Seq<char>>::empty() + c.skip(2) =~= rest);
    }
    let h = seq!["--help"@] + rest;
    assert(h[0] == "--help"@);
    assert(h[0] != "-c"@ && h[0] != "--cookies"@ && h[0] != "-o"@ && h[0] != "--out"@);
}

proof fn lemma_split_at_tab(a: Seq<char>, b: Seq<char>)
    requires
        !a.contains('\t'),
    ensures
        before(a + seq!['\t'] + b, '\t') == a,
        crate::job::after(a + seq!['\t'] + b, '\t') == Some(b),
{
    let s = a + seq!['\t'] + b;
    assert forall|t: int| 0 <= t < a.len() implies s[t] != '\t' by {
        assert(s[t] == a[t]);
    }
    lemma_find_char_at(s, '\t', a.len() as int, 0);
    assert(s.take(a.len() as int) =~= a);
    assert(s.skip(a.len() as int + 1) =~= b);
}

/// A `@META` line gives the uploader, the duration and the title, in that
/// order, from its three tab-separated fields (`NA`, `None` or nothing where
/// yt-dlp has no value).
pub proof fn meta_lines_give_uploader_duration_title(id: usize, u: Seq<char>, d: Seq<char>, t: Seq<char>)
    requires
        !u.contains('\t'),
        !d.contains('\t'),
        !t.contains('\t'),
    ensures
        parse_of(id, "@META "@ + u + seq!['\t'] + d + seq!['\t'] + t) == Some(MsgView::Meta {
            id,
            uploader: field_value(Some(u)),
            duration: field_value(Some(d)),
            title: field_value(Some(t)),
        }),
{
    reveal_strlit("@META ");
    reveal_strlit("@DL ");
    reveal_strlit("@PP ");
    let s = "@META "@ + u + seq!['\t'] + d + seq!['\t'] + t;
    let body = u + seq!['\t'] + (d + seq!['\t'] + t);
    assert(s.take(6) =~= "@META "@);
    assert(s.skip(6) =~= body);
    assert(!starts_with(s, "@DL "@)) by {
        if starts_with(s, "@DL "@) {
            assert(s.take(4)[1] == "@DL "@[1]);
        }
    }
    assert(!starts_with(s, "@PP "@)) by {
        if starts_with(s, "@PP "@) {
            assert(s.take(4)[1] == "@PP "@[1]);
        }
    }
    lemma_split_at_tab(u, d + seq!['\t'] + t);
    lemma_split_at_tab(d, t);
    lemma_no_char(t, '\t', 0);
    assert(before(t, '\t') == t);
    assert(crate::job::after(t, '\t') is None);
    assert(tab_fields(body) == (Some(u), Some(d), Some(t)));
}

/// The stats panel counts every job exactly once, as done, running, waiting
/// or failed; its done count is what `x` clears and its running count is what
/// the worker limit counts.
pub proof fn stats_count_every_job_once(jobs: Seq<JobView>)
    ensures
        crate::view::counts_of(jobs).0 + crate::view::counts_of(jobs).1 + crate::view::counts_of(jobs).2
            + crate::view::counts_of(jobs).3 == jobs.len(),
        crate::view::counts_of(jobs).0 == done_count(jobs),
        crate::view::counts_of(jobs).1 == active_count(jobs),
    decreases jobs.len(),
{
    if jobs.len() > 0 {
        stats_count_every_job_once(jobs.drop_last());
    }
}

/// When a download fails, the error yt-dlp reported stays the reason shown;
/// only without one does the exit itself become the reason. A download that
/// ends cleanly with no file was already in the folder, and says so. The
/// process is gone either way: no time is left.
pub proof fn exits_keep_the_reported_error(j: JobView, code: Option<i32>)
    ensures
        exited(j, code).eta is None,
        exited(j, code).id == j.id && exited(j, code).url == j.url && exited(j, code).file == j.file,
        !(j.status is Canceled) && code != Some(0i32) && j.error is Some ==> exited(j, code).error == j.error,
        !(j.status is Canceled) && code != Some(0i32) && j.error is None ==> exited(j, code).error
            == Some(crate::app::exit_reason(code)),
        !(j.status is Canceled) && code == Some(0i32) && j.file is None ==> exited(j, code).error == Some(
            "already saved earlier — nothing to download"@,
        ),
        !(j.status is Canceled) && code == Some(0i32) && j.file is Some ==> exited(j, code).error == j.error,
        j.status is Canceled ==> exited(j, code).error == j.error,
{
}

} // verus!
