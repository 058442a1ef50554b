//! What a dry run says of a batch, and what comes of the batch when it is run.

use crate::course;
use crate::disk;
use crate::machine;
use crate::machine::{Ending, SessionView, Stage};
use crate::path::Style;
use crate::plan;
use crate::protocol::{ActionView, EventView};
use crate::types::{EditStatusView, EditView, RequestView};
use vstd::prelude::*;

verus! {

/// What edit `k` is matched against: what the edits before it make of its target, where the
/// target is there.
pub open spec fn text_before(
    place: spec_fn(Seq<char>) -> int,
    req: RequestView,
    first: Map<int, Seq<u8>>,
    k: int,
) -> Option<Seq<u8>> {
    let r = machine::rel(req.style, req.edits[k].path);
    match disk::held(first, place(r)) {
        Some(bytes) => Some(disk::composed(req.style, req.edits.take(k), r, bytes)),
        None => None,
    }
}

/// What a dry run is to say of edit `k`.
pub open spec fn status_of(
    place: spec_fn(Seq<char>) -> int,
    req: RequestView,
    first: Map<int, Seq<u8>>,
    k: int,
) -> EditStatusView {
    let text = text_before(place, req, first, k);
    plan::dry_status(req.edits[k], text is Some, text)
}

/// Whenever the driver was asked whether a target lies inside the working directory, it did
/// not say no.
pub open spec fn never_outside(s: SessionView, evs: Seq<EventView>) -> bool
    decreases evs.len(),
{
    evs.len() > 0 ==> {
        &&& never_outside(s, evs.drop_last())
        &&& !says_outside(course::reached(s, evs.drop_last()), evs.last())
    }
}

/// What is there can be read.
pub open spec fn readable(evs: Seq<EventView>) -> bool {
    forall|i: int|
        0 <= i < evs.len() ==> ((#[trigger] evs[i]) matches EventView::Found { exists, content }
            ==> exists == (content is Some))
}

/// A dry run holds of each file what the edits that it has looked at make of it.
pub open spec fn in_step(
    place: spec_fn(Seq<char>) -> int,
    s: SessionView,
    first: Map<int, Seq<u8>>,
) -> bool {
    let done = s.req.edits.take(s.edits.len() as int);
    forall|r: Seq<char>|
        match #[trigger] machine::latest(s.prepared, r) {
            Some(p) => {
                let q = s.prepared[p];
                &&& disk::held(first, place(r)) == Some(q.original)
                &&& vstd::utf8::encode_utf8(q.new_text) == disk::composed(s.req.style, done, r, q.original)
            },
            None => disk::held(first, place(r)) matches Some(bytes) ==> disk::composed(
                s.req.style,
                done,
                r,
                bytes,
            ) == bytes,
        }
}

/// The statuses so far are those that a dry run is to give.
pub open spec fn as_foretold(
    place: spec_fn(Seq<char>) -> int,
    s: SessionView,
    first: Map<int, Seq<u8>>,
) -> bool {
    forall|k: int|
        0 <= k < s.edits.len() ==> #[trigger] s.edits[k] == status_of(place, s.req, first, k)
}

/// What one more edit makes of a file.
proof fn lemma_one_more(style: Style, edits: Seq<EditView>, i: int, r: Seq<char>, bytes: Seq<u8>)
    requires
        0 <= i < edits.len(),
    ensures
        disk::composed(style, edits.take(i + 1), r, bytes) == match plan::edit_outcome(
            edits[i],
            disk::composed(style, edits.take(i), r, bytes),
        ) {
            Ok(m) if machine::rel(style, edits[i].path) == r => vstd::utf8::encode_utf8(m.new_text),
            _ => disk::composed(style, edits.take(i), r, bytes),
        },
{
    assert(edits.take(i + 1).drop_last() =~= edits.take(i));
    assert(edits.take(i + 1).last() == edits[i]);
}

/// A dry run matches an edit against what the edits before it make of the file.
proof fn lemma_matching_step(
    place: spec_fn(Seq<char>) -> int,
    s: SessionView,
    ev: EventView,
    first: Map<int, Seq<u8>>,
    i: int,
)
    requires
        machine::valid(s),
        s.stage == Stage::DryInspect(i as usize),
        0 <= i < s.req.edits.len(),
        in_step(place, s, first),
        disk::step(place, s, ev, first, first),
        ev matches EventView::Found { exists, content } ==> exists == (content is Some),
    ensures
        ({
            let t = machine::next(s, ev);
            t == s || {
                &&& t.edits == s.edits.push(status_of(place, s.req, first, i))
                &&& in_step(place, t, first)
            }
        }),
{
    reveal(machine::next);
    machine::lemma_counts(s.req);
    let t = machine::next(s, ev);
    let edits = s.req.edits;
    let e = edits[i];
    let r = machine::rel(s.req.style, e.path);
    machine::lemma_latest(s.prepared, r);
    let found = machine::latest(s.prepared, r);
    if t != s {
        assert(t.req == s.req);
        assert(t.edits.len() == i + 1);
        assert(t.edits == s.edits.push(status_of(place, s.req, first, i)));
        assert forall|q: Seq<char>|
            match #[trigger] machine::latest(t.prepared, q) {
                Some(p) => {
                    let v = t.prepared[p];
                    &&& disk::held(first, place(q)) == Some(v.original)
                    &&& vstd::utf8::encode_utf8(v.new_text) == disk::composed(
                        s.req.style,
                        edits.take(i + 1),
                        q,
                        v.original,
                    )
                },
                None => disk::held(first, place(q)) matches Some(bytes) ==> disk::composed(
                    s.req.style,
                    edits.take(i + 1),
                    q,
                    bytes,
                ) == bytes,
            } by {
            let bytes = disk::held(first, place(q))->0;
            lemma_one_more(s.req.style, edits, i, q, bytes);
            machine::lemma_latest(s.prepared, q);
            assert(machine::latest(s.prepared, q) is Some || machine::latest(s.prepared, q) is None);
            if t.prepared != s.prepared {
                assert(t.prepared.drop_last() =~= s.prepared);
            }
        }
    }
}

/// Asking where a target lies leads on to it, or refuses the edit.
proof fn lemma_locating_step(s: SessionView, ev: EventView, i: int)
    requires
        machine::valid(s),
        s.stage == Stage::DryLocate(i as usize),
        0 <= i < s.req.edits.len(),
    ensures
        ({
            let t = machine::next(s, ev);
            &&& t.req == s.req
            &&& t.prepared == s.prepared
            &&& t.edits == s.edits || {
                &&& machine::demand(s) is Locate
                &&& ev == EventView::Located(false)
                &&& t.edits.len() == s.edits.len() + 1
                &&& !t.edits.last().ok
            }
            &&& machine::demand(s) is Locate && ev == EventView::Located(false) ==> t.edits.len()
                == s.edits.len() + 1 && !t.edits.last().ok
        }),
{
    reveal(machine::next);
    machine::lemma_counts(s.req);
}

/// Some edit is not fine.
pub open spec fn some_not_ok(s: SessionView) -> bool {
    exists|k: int| 0 <= k < s.edits.len() && !(#[trigger] s.edits[k]).ok
}

/// Statuses that were noted stay, whatever comes.
proof fn lemma_statuses_stay(s: SessionView, ev: EventView)
    requires
        machine::valid(s),
        s.req.dry_run,
    ensures
        s.edits.len() <= machine::next(s, ev).edits.len(),
        forall|k: int|
            0 <= k < s.edits.len() ==> #[trigger] machine::next(s, ev).edits[k] == s.edits[k],
{
    reveal(machine::next);
}

/// The driver says that a target lies outside.
pub open spec fn says_outside(s: SessionView, ev: EventView) -> bool {
    machine::demand(s) is Locate && ev == EventView::Located(false)
}

/// An event of a dry run keeps it as foretold, unless it finds a target outside: then some
/// edit is not fine.
proof fn lemma_foretold_step(
    place: spec_fn(Seq<char>) -> int,
    s: SessionView,
    ev: EventView,
    first: Map<int, Seq<u8>>,
)
    requires
        machine::valid(s),
        s.req.dry_run,
        in_step(place, s, first),
        as_foretold(place, s, first),
        disk::step(place, s, ev, first, first),
        ev matches EventView::Found { exists, content } ==> exists == (content is Some),
    ensures
        !says_outside(s, ev) ==> in_step(place, machine::next(s, ev), first) && as_foretold(
            place,
            machine::next(s, ev),
            first,
        ),
        says_outside(s, ev) ==> some_not_ok(machine::next(s, ev)),
{
    let t = machine::next(s, ev);
    course::lemma_next_keeps_request(s, ev);
    lemma_statuses_stay(s, ev);
    match s.stage {
        Stage::DryLocate(i) => {
            lemma_locating_step(s, ev, i as int);
            if says_outside(s, ev) {
                assert(!t.edits[t.edits.len() - 1].ok);
            }
        },
        Stage::DryInspect(i) => {
            lemma_matching_step(place, s, ev, first, i as int);
            assert forall|k: int| 0 <= k < t.edits.len() implies #[trigger] t.edits[k] == status_of(
                place,
                s.req,
                first,
                k,
            ) by {
                if k < s.edits.len() {
                    assert(t.edits[k] == s.edits[k]);
                }
            }
        },
        _ => {
            assert(t == s) by {
                reveal(machine::next);
            }
        },
    }
}

/// A dry run goes as foretold until a target is found to lie outside; from then on it is
/// not fine.
proof fn lemma_dry_run(
    place: spec_fn(Seq<char>) -> int,
    req: RequestView,
    evs: Seq<EventView>,
    disks: Seq<Map<int, Seq<u8>>>,
)
    requires
        disk::is_run(place, req, evs, disks),
        req.dry_run,
        readable(evs),
    ensures
        ({
            let s0 = machine::start(req);
            let s = course::reached(s0, evs);
            &&& machine::valid(s)
            &&& s.req == req
            &&& never_outside(s0, evs) ==> in_step(place, s, disks[0]) && as_foretold(
                place,
                s,
                disks[0],
            )
            &&& !never_outside(s0, evs) ==> some_not_ok(s)
        }),
    decreases evs.len(),
{
    let s0 = machine::start(req);
    let first = disks[0];
    if evs.len() == 0 {
        machine::lemma_start_is_valid(req);
        assert(req.edits.take(0) =~= seq![]);
    } else {
        let front = evs.drop_last();
        let earlier = disks.drop_last();
        let n = evs.len() - 1;
        let ev = evs.last();
        disk::lemma_shorter_run(place, req, evs, disks);
        assert(readable(front)) by {
            assert forall|i: int| 0 <= i < front.len() implies ((
            #[trigger] front[i]) matches EventView::Found { exists, content } ==> exists == (
            content is Some)) by {
                assert(front[i] == evs[i]);
            }
        }
        lemma_dry_run(place, req, front, earlier);
        disk::law_dry_run_touches_nothing(place, req, front, earlier);
        disk::law_dry_run_touches_nothing(place, req, evs, disks);
        let s = course::reached(s0, front);
        assert(evs.take(n) =~= front);
        assert(disk::step(
            place,
            course::reached(s0, evs.take(n)),
            evs[n],
            disks[n],
            disks[n + 1],
        ));
        machine::lemma_next_is_valid(s, ev);
        course::lemma_same_request(s0, evs);
        if never_outside(s0, front) {
            lemma_foretold_step(place, s, ev, first);
        } else {
            lemma_statuses_stay(s, ev);
            let k = choose|k: int| 0 <= k < s.edits.len() && !(#[trigger] s.edits[k]).ok;
            assert(!machine::next(s, ev).edits[k].ok);
        }
    }
}

/// A dry run matches every edit against what the edits before it make of its target, as
/// pre-flight does: each status is that of the edit on this text.
pub proof fn law_dry_run_composes(
    place: spec_fn(Seq<char>) -> int,
    req: RequestView,
    evs: Seq<EventView>,
    disks: Seq<Map<int, Seq<u8>>>,
)
    requires
        disk::is_run(place, req, evs, disks),
        req.dry_run,
        readable(evs),
        never_outside(machine::start(req), evs),
        machine::outcome(course::reached(machine::start(req), evs)) is Some,
    ensures
        machine::outcome(course::reached(machine::start(req), evs))->0 matches Ok(r) && {
            &&& r.edits.len() == req.edits.len()
            &&& forall|k: int|
                0 <= k < r.edits.len() ==> #[trigger] r.edits[k] == status_of(
                    place,
                    req,
                    disks[0],
                    k,
                )
        },
{
    lemma_dry_run(place, req, evs, disks);
}

/// A dry run is fine exactly where no target was found to lie outside the working directory
/// and every edit has a target, and the right number of matches in what the edits before
/// it make of that target. Where it is fine, every target was found to lie inside, unless
/// that is of no matter.
pub proof fn law_dry_run_verdict(
    place: spec_fn(Seq<char>) -> int,
    req: RequestView,
    evs: Seq<EventView>,
    disks: Seq<Map<int, Seq<u8>>>,
)
    requires
        disk::is_run(place, req, evs, disks),
        req.dry_run,
        readable(evs),
        machine::outcome(course::reached(machine::start(req), evs)) is Some,
    ensures
        machine::outcome(course::reached(machine::start(req), evs))->0 matches Ok(r) && {
            &&& r.ok <==> (disk::all_match(place, req, disks[0]) && never_outside(
                machine::start(req),
                evs,
            ))
            &&& r.ok && !req.allow_outside ==> forall|k: int|
                0 <= k < req.edits.len() ==> course::located(
                    machine::start(req),
                    evs,
                    machine::rel(req.style, (#[trigger] req.edits[k]).path),
                )
        },
{
    let s0 = machine::start(req);
    let s = course::reached(s0, evs);
    let first = disks[0];
    lemma_dry_run(place, req, evs, disks);
    if never_outside(s0, evs) {
        if !req.allow_outside {
            lemma_dry_run_locates(req, evs);
        }
        assert forall|k: int| 0 <= k < req.edits.len() implies ((#[trigger] s.edits[k]).ok <==> {
            let e = req.edits[k];
            let before = disk::held(first, place(machine::rel(req.style, e.path)));
            &&& before is Some
            &&& plan::edit_outcome(
                e,
                disk::composed(req.style, req.edits.take(k), machine::rel(req.style, e.path), before->0),
            ) is Ok
        }) by {
            assert(s.edits[k] == status_of(place, req, first, k));
        }
        if disk::all_match(place, req, first) {
            assert forall|k: int| 0 <= k < s.edits.len() implies (#[trigger] s.edits[k]).ok by {
                assert(disk::held(first, place(machine::rel(req.style, req.edits[k].path))) is Some);
            }
        }
        if forall|k: int| 0 <= k < s.edits.len() ==> (#[trigger] s.edits[k]).ok {
            assert forall|k: int| 0 <= k < req.edits.len() implies {
                let e = #[trigger] req.edits[k];
                let before = disk::held(first, place(machine::rel(req.style, e.path)));
                &&& before is Some
                &&& plan::edit_outcome(
                    e,
                    disk::composed(req.style, req.edits.take(k), machine::rel(req.style, e.path), before->0),
                ) is Ok
            } by {
                assert(s.edits[k].ok);
            }
        }
    }
}

/// The driver says where targets lie only when it is asked, and says it truly: `inside`
/// holds of the paths that lead into the working directory.
pub open spec fn surveyed(
    inside: spec_fn(Seq<char>) -> bool,
    s: SessionView,
    evs: Seq<EventView>,
) -> bool {
    forall|i: int|
        0 <= i < evs.len() ==> ((#[trigger] evs[i]) matches EventView::Located(b) ==> (
        machine::demand(course::reached(s, evs.take(i))) matches ActionView::Locate { path } && b
            == inside(path)))
}

/// The targets of all edits lie inside the working directory, or need not.
pub open spec fn all_inside(inside: spec_fn(Seq<char>) -> bool, req: RequestView) -> bool {
    req.allow_outside || forall|k: int|
        0 <= k < req.edits.len() ==> inside(machine::rel(req.style, (#[trigger] req.edits[k]).path))
}

/// What is asked for in a request without writes is where the target of an edit lies.
proof fn lemma_asked(s: SessionView)
    requires
        machine::valid(s),
        s.req.writes.len() == 0,
        machine::demand(s) is Locate,
    ensures
        !s.req.allow_outside,
        exists|k: int|
            0 <= k < s.req.edits.len() && machine::demand(s) == (ActionView::Locate {
                path: machine::rel(s.req.style, (#[trigger] s.req.edits[k]).path),
            }),
{
    match s.stage {
        Stage::DryLocate(i) | Stage::EditLocate(i) => {
            assert(machine::demand(s) == (ActionView::Locate {
                path: machine::rel(s.req.style, s.req.edits[i as int].path),
            }));
        },
        _ => {},
    }
}

/// Where all targets lie inside, the driver never says no.
proof fn lemma_no_no(
    inside: spec_fn(Seq<char>) -> bool,
    req: RequestView,
    evs: Seq<EventView>,
)
    requires
        course::acceptable(req),
        req.writes.len() == 0,
        all_inside(inside, req),
        surveyed(inside, machine::start(req), evs),
    ensures
        forall|i: int| 0 <= i < evs.len() ==> (#[trigger] evs[i]) != EventView::Located(false),
{
    let s0 = machine::start(req);
    assert forall|i: int| 0 <= i < evs.len() implies (#[trigger] evs[i]) != EventView::Located(
        false,
    ) by {
        if evs[i] == EventView::Located(false) {
            let s = course::reached(s0, evs.take(i));
            course::lemma_reached_is_valid(req, evs.take(i));
            course::lemma_same_request(s0, evs.take(i));
            lemma_asked(s);
        }
    }
}

/// A driver that never says no never finds a target outside.
proof fn lemma_no_no_is_never_outside(s: SessionView, evs: Seq<EventView>)
    requires
        forall|i: int| 0 <= i < evs.len() ==> (#[trigger] evs[i]) != EventView::Located(false),
    ensures
        never_outside(s, evs),
    decreases evs.len(),
{
    if evs.len() > 0 {
        let front = evs.drop_last();
        assert forall|i: int| 0 <= i < front.len() implies (
        #[trigger] front[i]) != EventView::Located(false) by {
            assert(front[i] == evs[i]);
        }
        lemma_no_no_is_never_outside(s, front);
        assert(evs[evs.len() - 1] != EventView::Located(false));
    }
}

/// Unless a target is found outside, a status is noted when the target was inspected.
proof fn lemma_growth(s: SessionView, ev: EventView)
    requires
        machine::valid(s),
        s.req.dry_run,
        !says_outside(s, ev),
    ensures
        ({
            let t = machine::next(s, ev);
            t.edits.len() > s.edits.len() ==> t.edits.len() == s.edits.len() + 1 && s.stage
                == Stage::DryInspect(s.edits.len() as usize)
        }),
{
    machine::lemma_counts(s.req);
    match s.stage {
        Stage::DryLocate(i) => {
            lemma_locating_step(s, ev, i as int);
        },
        _ => {
            reveal(machine::next);
        },
    }
}

/// The edit that a dry run has just noted was found to lie inside.
#[verifier::spinoff_prover]
proof fn lemma_new_edit_is_located(req: RequestView, evs: Seq<EventView>, ev: EventView, k: int)
    requires
        course::acceptable(req),
        req.dry_run,
        !req.allow_outside,
        !says_outside(course::reached(machine::start(req), evs), ev),
        course::reached(machine::start(req), evs).edits.len() <= k,
        k < machine::next(course::reached(machine::start(req), evs), ev).edits.len(),
    ensures
        course::located(machine::start(req), evs, machine::rel(req.style, req.edits[k].path)),
{
    let s = course::reached(machine::start(req), evs);
    course::lemma_confined(req, evs);
    course::lemma_reached_is_valid(req, evs);
    course::lemma_same_request(machine::start(req), evs);
    machine::lemma_counts(req);
    lemma_growth(s, ev);
    assert(course::located_at(s) == Some(machine::rel(req.style, req.edits[k].path)));
}

/// A dry run that finds no target outside has found every target that it has looked at
/// inside.
proof fn lemma_dry_run_locates(req: RequestView, evs: Seq<EventView>)
    requires
        course::acceptable(req),
        req.dry_run,
        !req.allow_outside,
        never_outside(machine::start(req), evs),
    ensures
        ({
            let s0 = machine::start(req);
            forall|k: int|
                0 <= k < course::reached(s0, evs).edits.len() ==> course::located(
                    s0,
                    evs,
                    machine::rel(req.style, (#[trigger] req.edits[k]).path),
                )
        }),
    decreases evs.len(),
{
    let s0 = machine::start(req);
    if evs.len() > 0 {
        let front = evs.drop_last();
        lemma_dry_run_locates(req, front);
        assert forall|k: int| 0 <= k < course::reached(s0, evs).edits.len() implies course::located(
            s0,
            evs,
            machine::rel(req.style, (#[trigger] req.edits[k]).path),
        ) by {
            let path = machine::rel(req.style, req.edits[k].path);
            if k >= course::reached(s0, front).edits.len() {
                lemma_new_edit_is_located(req, front, evs.last(), k);
            }
            assert(course::located(s0, front, path));
            course::lemma_stays_located(s0, evs, path);
        }
    }
}

/// What was located lies inside.
proof fn lemma_located_is_inside(
    inside: spec_fn(Seq<char>) -> bool,
    s: SessionView,
    evs: Seq<EventView>,
    path: Seq<char>,
)
    requires
        surveyed(inside, s, evs),
        course::located(s, evs, path),
    ensures
        inside(path),
{
    let i = choose|i: int|
        0 <= i < evs.len() && #[trigger] evs[i] == EventView::Located(true) && machine::demand(
            course::reached(s, evs.take(i)),
        ) == (ActionView::Locate { path });
    assert(evs[i] is Located);
}

/// A dry run is fine exactly where all edits match and all targets lie inside.
proof fn lemma_dry_run_says(
    place: spec_fn(Seq<char>) -> int,
    inside: spec_fn(Seq<char>) -> bool,
    req: RequestView,
    evs: Seq<EventView>,
    disks: Seq<Map<int, Seq<u8>>>,
)
    requires
        disk::is_run(place, req, evs, disks),
        req.dry_run,
        req.writes.len() == 0,
        readable(evs),
        surveyed(inside, machine::start(req), evs),
        machine::outcome(course::reached(machine::start(req), evs)) is Some,
    ensures
        machine::outcome(course::reached(machine::start(req), evs))->0 matches Ok(r) && (r.ok <==> (
        disk::all_match(place, req, disks[0]) && all_inside(inside, req))),
{
    let s0 = machine::start(req);
    law_dry_run_verdict(place, req, evs, disks);
    course::lemma_reached_is_valid(req, evs);
    course::lemma_same_request(s0, evs);
    if all_inside(inside, req) {
        lemma_no_no(inside, req, evs);
        lemma_no_no_is_never_outside(s0, evs);
    }
    if never_outside(s0, evs) && !req.allow_outside {
        lemma_dry_run_locates(req, evs);
        assert forall|k: int| 0 <= k < req.edits.len() implies inside(
            machine::rel(req.style, (#[trigger] req.edits[k]).path),
        ) by {
            lemma_located_is_inside(inside, s0, evs, machine::rel(req.style, req.edits[k].path));
        }
    }
}

/// A batch without writes goes through exactly where all edits match and all targets lie
/// inside, as long as the driver reports no other trouble.
proof fn lemma_batch_does(
    place: spec_fn(Seq<char>) -> int,
    inside: spec_fn(Seq<char>) -> bool,
    req: RequestView,
    evs: Seq<EventView>,
    disks: Seq<Map<int, Seq<u8>>>,
)
    requires
        disk::is_run(place, req, evs, disks),
        disk::apart(place, req),
        !req.dry_run,
        req.writes.len() == 0,
        forall|i: int| 0 <= i < evs.len() ==> (#[trigger] evs[i]) is Located || disk::is_smooth(evs[i]),
        surveyed(inside, machine::start(req), evs),
        machine::outcome(course::reached(machine::start(req), evs)) is Some,
    ensures
        machine::outcome(course::reached(machine::start(req), evs))->0 is Ok <==> (disk::all_match(
            place,
            req,
            disks[0],
        ) && all_inside(inside, req)),
{
    let s0 = machine::start(req);
    let s = course::reached(s0, evs);
    course::lemma_reached_is_valid(req, evs);
    course::lemma_same_request(s0, evs);
    if all_inside(inside, req) && disk::all_match(place, req, disks[0]) {
        lemma_no_no(inside, req, evs);
        assert forall|i: int| 0 <= i < evs.len() implies disk::is_smooth(#[trigger] evs[i]) by {
            assert(evs[i] is Located || disk::is_smooth(evs[i]));
        }
        disk::law_success_is_owed(place, req, evs, disks);
    }
    if s.stage == Stage::Finished(Ending::Applied) {
        disk::law_every_edit_matched(place, req, evs, disks);
        if !req.allow_outside {
            course::lemma_confined(req, evs);
            assert forall|k: int| 0 <= k < req.edits.len() implies inside(
                machine::rel(req.style, (#[trigger] req.edits[k]).path),
            ) by {
                assert(s.prepared[k].rel == machine::rel(req.style, req.edits[k].path));
                lemma_located_is_inside(inside, s0, evs, s.prepared[k].rel);
            }
        }
    }
}

/// A dry run foretells the batch: of a request without writes, on the same files, the dry
/// run is fine exactly where the batch goes through. Both are to be answered truly, what is
/// there can be read, and nothing but a target that lies outside gets into the way.
pub proof fn law_dry_run_foretells_the_batch(
    place: spec_fn(Seq<char>) -> int,
    inside: spec_fn(Seq<char>) -> bool,
    req: RequestView,
    dry_evs: Seq<EventView>,
    dry_disks: Seq<Map<int, Seq<u8>>>,
    evs: Seq<EventView>,
    disks: Seq<Map<int, Seq<u8>>>,
)
    requires
        !req.dry_run,
        req.writes.len() == 0,
        disk::apart(place, req),
        dry_disks[0] == disks[0],
        disk::is_run(place, (RequestView { dry_run: true, ..req }), dry_evs, dry_disks),
        readable(dry_evs),
        surveyed(inside, machine::start(RequestView { dry_run: true, ..req }), dry_evs),
        machine::outcome(
            course::reached(machine::start(RequestView { dry_run: true, ..req }), dry_evs),
        ) is Some,
        disk::is_run(place, req, evs, disks),
        forall|i: int| 0 <= i < evs.len() ==> (#[trigger] evs[i]) is Located || disk::is_smooth(evs[i]),
        surveyed(inside, machine::start(req), evs),
        machine::outcome(course::reached(machine::start(req), evs)) is Some,
    ensures
        machine::outcome(
            course::reached(machine::start(RequestView { dry_run: true, ..req }), dry_evs),
        )->0 matches Ok(r) && (r.ok <==> machine::outcome(
            course::reached(machine::start(req), evs),
        )->0 is Ok),
{
    let dry = RequestView { dry_run: true, ..req };
    lemma_dry_run_says(place, inside, dry, dry_evs, dry_disks);
    lemma_batch_does(place, inside, req, evs, disks);
    assert(disk::all_match(place, dry, disks[0]) == disk::all_match(place, req, disks[0]));
}

} // verus!
