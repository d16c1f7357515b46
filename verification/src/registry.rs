//! Session registry: reconciles the authoritative live-mount set against
//! the on-disk session candidates into a sorted, filterable listing, and
//! renders it as a fixed-width table.
//!
//! A candidate's mountpoint is never cached: it is reported present, as the
//! candidate's directory joined with the fixed mount subpath, exactly when
//! its identifier is in the live set.

use vstd::assert_multisets_equal;
use vstd::multiset::Multiset;
use vstd::prelude::*;

use crate::text::{lex_le, lit_bytes, padded, text_bytes};

verus! {

broadcast use
    vstd::seq_lib::group_to_multiset_ensures,
    vstd::multiset::group_multiset_axioms,
;

/// One session row: the identifier and, when the session is mounted, its
/// mountpoint path.
pub struct SessionInfo {
    pub id: Vec<u8>,
    pub mountpoint: Option<Vec<u8>>,
}

/// The mathematical value of a session row.
pub struct SessionView {
    pub id: Seq<u8>,
    pub mountpoint: Option<Seq<u8>>,
}

impl View for SessionInfo {
    type V = SessionView;

    open spec fn view(&self) -> SessionView {
        SessionView {
            id: self.id@,
            mountpoint: match self.mountpoint {
                Some(m) => Some(m@),
                None => None,
            },
        }
    }
}

/// The values of a sequence of rows.
pub open spec fn views_of(s: Seq<SessionInfo>) -> Seq<SessionView> {
    s.map_values(|x: SessionInfo| x@)
}

/// Where a session's mountpoint lies: its directory under the runtime
/// root, joined with the fixed mount subpath.
pub open spec fn mount_path_spec(run_dir: Seq<u8>, id: Seq<u8>) -> Seq<u8> {
    run_dir + text_bytes("/") + id + text_bytes("/mnt")
}

/// A session is running exactly when its mountpoint is present.
pub open spec fn is_running(s: SessionView) -> bool {
    s.mountpoint is Some
}

/// The row each candidate yields: mountpoint present iff the candidate's
/// identifier is in the live set.
pub open spec fn annotate_views(
    candidates: Seq<Seq<u8>>,
    live: Seq<Seq<u8>>,
    run_dir: Seq<u8>,
) -> Seq<SessionView> {
    Seq::new(
        candidates.len(),
        |m: int|
            SessionView {
                id: candidates[m],
                mountpoint: if live.contains(candidates[m]) {
                    Some(mount_path_spec(run_dir, candidates[m]))
                } else {
                    None
                },
            },
    )
}

/// The running rows of a listing, in order.
pub open spec fn running_only(s: Seq<SessionView>) -> Seq<SessionView>
    decreases s.len(),
{
    if s.len() == 0 {
        Seq::empty()
    } else if is_running(s[0]) {
        seq![s[0]] + running_only(s.drop_first())
    } else {
        running_only(s.drop_first())
    }
}

/// The rows a listing reports: every candidate in all-mode, only running
/// ones otherwise.
pub open spec fn listed_views(
    candidates: Seq<Seq<u8>>,
    live: Seq<Seq<u8>>,
    run_dir: Seq<u8>,
    show_all: bool,
) -> Seq<SessionView> {
    if show_all {
        annotate_views(candidates, live, run_dir)
    } else {
        running_only(annotate_views(candidates, live, run_dir))
    }
}

/// Rows ordered by identifier.
pub open spec fn sorted_by_id(s: Seq<SessionView>) -> bool {
    forall|a: int, b: int| 0 <= a < b < s.len() ==> lex_le(s[a].id, s[b].id)
}

/// Append the bytes of `s` to `out`.
pub fn append_bytes(out: &mut Vec<u8>, s: &Vec<u8>)
    ensures
        final (out)@ == old(out)@ + s@,
{
    let mut i: usize = 0;
    while i < s.len()
        invariant
            i <= s.len(),
            out@ == old(out)@ + s@.take(i as int),
        decreases s.len() - i,
    {
        out.push(s[i]);
        proof {
            assert(s@.take(i + 1) =~= s@.take(i as int).push(s@[i as int]));
            assert(old(out)@ + s@.take(i + 1) =~= (old(out)@ + s@.take(i as int)).push(
                s@[i as int],
            ));
        }
        i = i + 1;
    }
    proof {
        assert(s@.take(s@.len() as int) =~= s@);
    }
}

/// Build the mountpoint path for a session directory under the runtime root.
pub fn session_mount_path(run_dir: &Vec<u8>, id: &Vec<u8>) -> (r: Vec<u8>)
    ensures
        r@ == mount_path_spec(run_dir@, id@),
{
    let mut r: Vec<u8> = Vec::new();
    append_bytes(&mut r, run_dir);
    let sep = lit_bytes("/");
    append_bytes(&mut r, &sep);
    append_bytes(&mut r, id);
    let suffix = lit_bytes("/mnt");
    append_bytes(&mut r, &suffix);
    proof {
        assert(r@ =~= mount_path_spec(run_dir@, id@));
    }
    r
}

/// Whether the live set holds this identifier.
fn live_has(live: &Vec<Vec<u8>>, id: &Vec<u8>) -> (r: bool)
    ensures
        r == live.deep_view().contains(id@),
{
    let ghost ldv = live.deep_view();
    let mut k: usize = 0;
    while k < live.len()
        invariant
            k <= live@.len(),
            ldv == live.deep_view(),
            ldv.len() == live@.len(),
            forall|m: int| 0 <= m < live@.len() ==> ldv[m] == live@[m]@,
            forall|m: int| 0 <= m < k ==> ldv[m] != id@,
        decreases live.len() - k,
    {
        if crate::text::bytes_eq(&live[k], id) {
            proof {
                assert(ldv[k as int] == id@);
            }
            return true;
        }
        k = k + 1;
    }
    proof {
        assert(forall|m: int| 0 <= m < ldv.len() ==> ldv[m] != id@);
    }
    false
}

/// One row per candidate, in candidate order, each mountpoint recomputed
/// from the live set.
fn annotate_sessions(candidates: &Vec<Vec<u8>>, live: &Vec<Vec<u8>>, run_dir: &Vec<u8>) -> (r:
    Vec<SessionInfo>)
    ensures
        views_of(r@) == annotate_views(candidates.deep_view(), live.deep_view(), run_dir@),
{
    let ghost cdv = candidates.deep_view();
    let ghost goal = annotate_views(candidates.deep_view(), live.deep_view(), run_dir@);
    let mut r: Vec<SessionInfo> = Vec::new();
    let mut k: usize = 0;
    while k < candidates.len()
        invariant
            k <= candidates@.len(),
            cdv == candidates.deep_view(),
            goal == annotate_views(candidates.deep_view(), live.deep_view(), run_dir@),
            cdv.len() == candidates@.len(),
            forall|m: int| 0 <= m < candidates@.len() ==> cdv[m] == candidates@[m]@,
            r@.len() == k,
            forall|m: int| 0 <= m < k ==> views_of(r@)[m] == goal[m],
        decreases candidates.len() - k,
    {
        let id = crate::text::copy_bytes(&candidates[k]);
        proof {
            assert(id@ == cdv[k as int]);
        }
        let mountpoint = if live_has(live, &id) {
            Some(session_mount_path(run_dir, &id))
        } else {
            None
        };
        let info = SessionInfo { id, mountpoint };
        proof {
            assert(info@ == goal[k as int]);
        }
        r.push(info);
        k = k + 1;
    }
    proof {
        assert(views_of(r@) =~= goal);
    }
    r
}

/// Keep only running rows, in order.
fn retain_running(v: Vec<SessionInfo>) -> (r: Vec<SessionInfo>)
    ensures
        views_of(r@) == running_only(views_of(v@)),
{
    let ghost all = views_of(v@);
    let mut rest = v;
    let mut out: Vec<SessionInfo> = Vec::new();
    proof {
        assert(views_of(out@) =~= Seq::<SessionView>::empty());
        assert(views_of(rest@) =~= all.skip(0));
        assert(Seq::<SessionView>::empty() + running_only(all.skip(0)) =~= running_only(
            all.skip(0),
        ));
    }
    while rest.len() > 0
        invariant
            rest@.len() <= all.len(),
            views_of(rest@) == all.skip(all.len() - rest@.len()),
            running_only(all) == views_of(out@) + running_only(
                all.skip(all.len() - rest@.len()),
            ),
        decreases rest.len(),
    {
        let ghost k = all.len() - rest@.len();
        let ghost pre = views_of(out@);
        let ghost rviews = views_of(rest@);
        let item = rest.remove(0);
        proof {
            assert(views_of(rest@) =~= rviews.drop_first());
            assert(rviews.drop_first() =~= all.skip(k + 1));
            assert(item@ == rviews[0]);
            assert(rviews[0] == all[k]);
            assert(all.skip(k)[0] == all[k]);
            assert(all.skip(k).drop_first() =~= all.skip(k + 1));
            assert(all.skip(k).len() > 0);
        }
        let keep = item.mountpoint.is_some();
        proof {
            assert(keep == is_running(all[k]));
        }
        if keep {
            out.push(item);
            proof {
                assert(views_of(out@) =~= pre.push(all[k]));
                assert(running_only(all.skip(k)) == seq![all[k]] + running_only(all.skip(k + 1)));
                assert(pre.push(all[k]) + running_only(all.skip(k + 1)) =~= pre + (seq![all[k]]
                    + running_only(all.skip(k + 1))));
            }
        } else {
            proof {
                assert(running_only(all.skip(k)) == running_only(all.skip(k + 1)));
            }
        }
    }
    proof {
        assert(all.skip(all.len() as int) =~= Seq::<SessionView>::empty());
        assert(running_only(Seq::<SessionView>::empty()) == Seq::<SessionView>::empty());
        assert(views_of(out@) + Seq::<SessionView>::empty() =~= views_of(out@));
    }
    out
}

/// Sort rows by identifier; the rows themselves are only rearranged.
fn sort_sessions(v: Vec<SessionInfo>) -> (r: Vec<SessionInfo>)
    ensures
        sorted_by_id(views_of(r@)),
        views_of(r@).to_multiset() == views_of(v@).to_multiset(),
{
    let ghost orig = views_of(v@);
    let mut work = v;
    let mut out: Vec<SessionInfo> = Vec::new();
    proof {
        assert(views_of(out@) =~= Seq::<SessionView>::empty());
        assert(views_of(out@).to_multiset().add(views_of(work@).to_multiset())
            =~= orig.to_multiset());
    }
    while work.len() > 0
        invariant
            orig.to_multiset() == views_of(out@).to_multiset().add(views_of(work@).to_multiset()),
            sorted_by_id(views_of(out@)),
            forall|a: int, b: int|
                0 <= a < views_of(out@).len() && 0 <= b < views_of(work@).len() ==> lex_le(
                    views_of(out@)[a].id,
                    views_of(work@)[b].id,
                ),
        decreases work.len(),
    {
        let mut min: usize = 0;
        let mut j: usize = 1;
        proof {
            crate::text::lemma_lex_le_refl(work@[0].id@);
        }
        while j < work.len()
            invariant
                min < j <= work@.len() || (j <= work@.len() && min == 0),
                min < work@.len(),
                forall|m: int| 0 <= m < j ==> lex_le(work@[min as int].id@, work@[m].id@),
            decreases work.len() - j,
        {
            if crate::text::bytes_le(&work[j].id, &work[min].id) {
                proof {
                    assert(forall|m: int|
                        0 <= m < j ==> lex_le(work@[min as int].id@, work@[m].id@));
                    assert forall|m: int| 0 <= m < j + 1 implies lex_le(
                        work@[j as int].id@,
                        work@[m].id@,
                    ) by {
                        if m < j {
                            crate::text::lemma_lex_le_trans(
                                work@[j as int].id@,
                                work@[min as int].id@,
                                work@[m].id@,
                            );
                        } else {
                            crate::text::lemma_lex_le_refl(work@[j as int].id@);
                        }
                    }
                }
                min = j;
            } else {
                proof {
                    crate::text::lemma_lex_le_total(work@[j as int].id@, work@[min as int].id@);
                }
            }
            j = j + 1;
        }
        let ghost wviews = views_of(work@);
        let ghost oviews = views_of(out@);
        let x = work.remove(min);
        proof {
            assert(views_of(work@) =~= wviews.remove(min as int));
            assert(wviews.len() == views_of(work@).len() + 1);
            vstd::seq_lib::to_multiset_remove(wviews, min as int);
            assert(x@ == wviews[min as int]);
        }
        out.push(x);
        proof {
            assert(views_of(out@) =~= oviews.push(x@));
            vstd::seq_lib::to_multiset_build(oviews, x@);
            assert(views_of(out@).to_multiset() =~= oviews.to_multiset().insert(x@));
            assert(wviews.contains(wviews[min as int]));
            assert(wviews.to_multiset().count(wviews[min as int]) > 0);
            assert_multisets_equal!(
                views_of(out@).to_multiset().add(views_of(work@).to_multiset()),
                orig.to_multiset(),
            );
            assert forall|a: int, b: int|
                0 <= a < views_of(out@).len() && 0 <= b < views_of(work@).len() implies lex_le(
                views_of(out@)[a].id,
                views_of(work@)[b].id,
            ) by {
                if a < oviews.len() {
                    assert(lex_le(oviews[a].id, wviews[b + (if b < min { 0int } else { 1int })].id));
                } else {
                    assert(views_of(out@)[a] == x@);
                    assert(lex_le(x@.id, wviews[b + (if b < min { 0int } else { 1int })].id));
                }
            }
            assert(sorted_by_id(views_of(out@)));
        }
    }
    proof {
        assert(views_of(work@) =~= Seq::<SessionView>::empty());
        assert(views_of(out@).to_multiset().add(Multiset::<SessionView>::empty())
            =~= views_of(out@).to_multiset());
    }
    out
}

/// Every row the running filter keeps is running and was already present.
proof fn lemma_running_only_members(s: Seq<SessionView>, x: SessionView)
    requires
        running_only(s).contains(x),
    ensures
        is_running(x),
        s.contains(x),
    decreases s.len(),
{
    let ro = running_only(s);
    if s.len() == 0 {
        assert(ro.len() == 0);
        assert(false);
    } else {
        let i = choose|i: int| 0 <= i < ro.len() && ro[i] == x;
        let tail = running_only(s.drop_first());
        if is_running(s[0]) {
            assert(ro == seq![s[0]] + tail);
            if i == 0 {
                assert((seq![s[0]] + tail)[0] == s[0]);
                assert(x == s[0]);
            } else {
                assert((seq![s[0]] + tail)[i] == tail[i - 1]);
                assert(tail.contains(x));
                lemma_running_only_members(s.drop_first(), x);
                let j = choose|j: int| 0 <= j < s.drop_first().len() && s.drop_first()[j] == x;
                assert(s.drop_first()[j] == s[j + 1]);
            }
        } else {
            assert(ro == tail);
            assert(tail.contains(x));
            lemma_running_only_members(s.drop_first(), x);
            let j = choose|j: int| 0 <= j < s.drop_first().len() && s.drop_first()[j] == x;
            assert(s.drop_first()[j] == s[j + 1]);
        }
    }
}

/// A listed row's mountpoint is determined by its identifier: present, as
/// the directory joined with the fixed mount subpath, exactly when the
/// identifier is live.
proof fn lemma_listed_member_shape(
    candidates: Seq<Seq<u8>>,
    live: Seq<Seq<u8>>,
    run_dir: Seq<u8>,
    show_all: bool,
    x: SessionView,
)
    requires
        listed_views(candidates, live, run_dir, show_all).contains(x),
    ensures
        x.mountpoint == (if live.contains(x.id) {
            Some(mount_path_spec(run_dir, x.id))
        } else {
            Option::<Seq<u8>>::None
        }),
        !show_all ==> x.mountpoint is Some,
{
    let annotated = annotate_views(candidates, live, run_dir);
    if !show_all {
        lemma_running_only_members(annotated, x);
    }
    assert(annotated.contains(x));
    let m = choose|m: int| 0 <= m < annotated.len() && annotated[m] == x;
    assert(x.id == candidates[m]);
}

/// Reconcile the candidates against the live set into the listing: the
/// reported rows are exactly the listed candidates (every candidate in
/// all-mode, the running ones otherwise), sorted by identifier, and each
/// row's mountpoint is recomputed from the live set: present, as the
/// directory joined with the fixed mount subpath, exactly when the
/// identifier is live.
pub fn list_sessions(
    candidates: &Vec<Vec<u8>>,
    live: &Vec<Vec<u8>>,
    run_dir: &Vec<u8>,
    show_all: bool,
) -> (r: Vec<SessionInfo>)
    ensures
        sorted_by_id(views_of(r@)),
        views_of(r@).to_multiset() == listed_views(
            candidates.deep_view(),
            live.deep_view(),
            run_dir@,
            show_all,
        ).to_multiset(),
        forall|m: int|
            0 <= m < r@.len() ==> (#[trigger] views_of(r@)[m]).mountpoint == (if
                live.deep_view().contains(views_of(r@)[m].id) {
                Some(mount_path_spec(run_dir@, views_of(r@)[m].id))
            } else {
                Option::<Seq<u8>>::None
            }),
        !show_all ==> forall|m: int|
            0 <= m < r@.len() ==> (#[trigger] views_of(r@)[m]).mountpoint is Some,
{
    let annotated = annotate_sessions(candidates, live, run_dir);
    let kept = if show_all {
        annotated
    } else {
        retain_running(annotated)
    };
    let out = sort_sessions(kept);
    proof {
        let listed = listed_views(candidates.deep_view(), live.deep_view(), run_dir@, show_all);
        assert forall|m: int| 0 <= m < out@.len() implies (#[trigger] views_of(out@)[m]).mountpoint
            == (if live.deep_view().contains(views_of(out@)[m].id) {
            Some(mount_path_spec(run_dir@, views_of(out@)[m].id))
        } else {
            Option::<Seq<u8>>::None
        }) && (!show_all ==> views_of(out@)[m].mountpoint is Some) by {
            let x = views_of(out@)[m];
            assert(views_of(out@).contains(x));
            assert(views_of(out@).to_multiset().count(x) > 0);
            assert(listed.to_multiset().count(x) > 0);
            assert(listed.contains(x));
            lemma_listed_member_shape(
                candidates.deep_view(),
                live.deep_view(),
                run_dir@,
                show_all,
                x,
            );
        }
    }
    out
}

/// What stands in the mountpoint column: the path, or a dash.
pub open spec fn mp_field(s: SessionView) -> Seq<u8> {
    match s.mountpoint {
        Some(m) => m,
        None => text_bytes("-"),
    }
}

/// The width the mountpoint column charges a row: the path's length, or one
/// for the dash.
pub open spec fn mp_field_len(s: SessionView) -> int {
    match s.mountpoint {
        Some(m) => m.len() as int,
        None => 1,
    }
}

/// The identifier column's width: the longest identifier, floored at ten.
pub open spec fn id_width_of(vs: Seq<SessionView>) -> int
    decreases vs.len(),
{
    if vs.len() == 0 {
        10
    } else {
        let rest = id_width_of(vs.drop_first());
        if vs[0].id.len() > rest {
            vs[0].id.len() as int
        } else {
            rest
        }
    }
}

/// The mountpoint column's width: the widest field, floored at ten.
pub open spec fn mount_width_of(vs: Seq<SessionView>) -> int
    decreases vs.len(),
{
    if vs.len() == 0 {
        10
    } else {
        let rest = mount_width_of(vs.drop_first());
        if mp_field_len(vs[0]) > rest {
            mp_field_len(vs[0])
        } else {
            rest
        }
    }
}

/// The identifier column is never narrower than its floor.
proof fn lemma_id_width_floor(vs: Seq<SessionView>)
    ensures
        id_width_of(vs) >= 10,
    decreases vs.len(),
{
    if vs.len() > 0 {
        lemma_id_width_floor(vs.drop_first());
    }
}

/// The mountpoint column is never narrower than its floor.
proof fn lemma_mount_width_floor(vs: Seq<SessionView>)
    ensures
        mount_width_of(vs) >= 10,
    decreases vs.len(),
{
    if vs.len() > 0 {
        lemma_mount_width_floor(vs.drop_first());
    }
}

/// Compute the identifier column's width: the longest identifier observed,
/// with the fixed floor.
pub fn id_column_width(v: &Vec<SessionInfo>) -> (w: usize)
    ensures
        w == id_width_of(views_of(v@)),
{
    let ghost all = views_of(v@);
    let mut w: usize = 10;
    let mut k: usize = 0;
    proof {
        assert(all.skip(0) =~= all);
        lemma_id_width_floor(all);
    }
    while k < v.len()
        invariant
            k <= v@.len(),
            all == views_of(v@),
            all.len() == v@.len(),
            w >= 10,
            id_width_of(all) == (if w > id_width_of(all.skip(k as int)) {
                w as int
            } else {
                id_width_of(all.skip(k as int))
            }),
        decreases v.len() - k,
    {
        proof {
            assert(all.skip(k as int)[0] == all[k as int]);
            assert(all.skip(k as int).drop_first() =~= all.skip(k + 1));
            assert(all[k as int].id == v@[k as int].id@);
        }
        let l = v[k].id.len();
        if l > w {
            w = l;
        }
        k = k + 1;
    }
    proof {
        assert(all.skip(all.len() as int) =~= Seq::<SessionView>::empty());
        assert(id_width_of(Seq::<SessionView>::empty()) == 10);
    }
    w
}

/// Compute the mountpoint column's width: the widest field observed, with
/// the fixed floor.
pub fn mount_column_width(v: &Vec<SessionInfo>) -> (w: usize)
    ensures
        w == mount_width_of(views_of(v@)),
{
    let ghost all = views_of(v@);
    let mut w: usize = 10;
    let mut k: usize = 0;
    proof {
        assert(all.skip(0) =~= all);
        lemma_mount_width_floor(all);
    }
    while k < v.len()
        invariant
            k <= v@.len(),
            all == views_of(v@),
            all.len() == v@.len(),
            w >= 10,
            mount_width_of(all) == (if w > mount_width_of(all.skip(k as int)) {
                w as int
            } else {
                mount_width_of(all.skip(k as int))
            }),
        decreases v.len() - k,
    {
        proof {
            assert(all.skip(k as int)[0] == all[k as int]);
            assert(all.skip(k as int).drop_first() =~= all.skip(k + 1));
        }
        let l: usize = match &v[k].mountpoint {
            Some(m) => m.len(),
            None => 1,
        };
        proof {
            assert(l as int == mp_field_len(all[k as int]));
        }
        if l > w {
            w = l;
        }
        k = k + 1;
    }
    proof {
        assert(all.skip(all.len() as int) =~= Seq::<SessionView>::empty());
        assert(mount_width_of(Seq::<SessionView>::empty()) == 10);
    }
    w
}

/// The status column's text.
pub open spec fn status_field(s: SessionView) -> Seq<u8> {
    if is_running(s) {
        text_bytes("running")
    } else {
        text_bytes("stopped")
    }
}

/// One rendered row.
pub open spec fn row_spec(s: SessionView, idw: int, mw: int) -> Seq<u8> {
    padded(s.id, idw) + text_bytes("  ") + padded(mp_field(s), mw) + text_bytes("  ")
        + status_field(s) + text_bytes("\n")
}

/// The rendered header line.
pub open spec fn header_spec(idw: int, mw: int) -> Seq<u8> {
    padded(text_bytes("SESSION ID"), idw) + text_bytes("  ") + padded(text_bytes("MOUNTPOINT"), mw)
        + text_bytes("  ") + text_bytes("STATUS") + text_bytes("\n")
}

/// All rows rendered in order.
pub open spec fn rows_spec(vs: Seq<SessionView>, idw: int, mw: int) -> Seq<u8>
    decreases vs.len(),
{
    if vs.len() == 0 {
        Seq::empty()
    } else {
        row_spec(vs[0], idw, mw) + rows_spec(vs.drop_first(), idw, mw)
    }
}

/// Render one row at the given column widths.
pub fn render_row(s: &SessionInfo, idw: usize, mw: usize) -> (r: Vec<u8>)
    ensures
        r@ == row_spec(s@, idw as int, mw as int),
{
    let mut r = crate::text::pad_to(&s.id, idw);
    let sep = lit_bytes("  ");
    append_bytes(&mut r, &sep);
    let field = match &s.mountpoint {
        Some(m) => crate::text::pad_to(m, mw),
        None => {
            let dash = lit_bytes("-");
            crate::text::pad_to(&dash, mw)
        },
    };
    append_bytes(&mut r, &field);
    append_bytes(&mut r, &sep);
    let status = if s.mountpoint.is_some() {
        lit_bytes("running")
    } else {
        lit_bytes("stopped")
    };
    append_bytes(&mut r, &status);
    let nl = lit_bytes("\n");
    append_bytes(&mut r, &nl);
    proof {
        assert(r@ =~= row_spec(s@, idw as int, mw as int));
    }
    r
}

/// Render the header line at the given column widths.
pub fn render_header(idw: usize, mw: usize) -> (r: Vec<u8>)
    ensures
        r@ == header_spec(idw as int, mw as int),
{
    let id_title = lit_bytes("SESSION ID");
    let mut r = crate::text::pad_to(&id_title, idw);
    let sep = lit_bytes("  ");
    append_bytes(&mut r, &sep);
    let mount_title = lit_bytes("MOUNTPOINT");
    let padded_mount = crate::text::pad_to(&mount_title, mw);
    append_bytes(&mut r, &padded_mount);
    append_bytes(&mut r, &sep);
    let status_title = lit_bytes("STATUS");
    append_bytes(&mut r, &status_title);
    let nl = lit_bytes("\n");
    append_bytes(&mut r, &nl);
    proof {
        assert(r@ =~= header_spec(idw as int, mw as int));
    }
    r
}

/// Render the listing: the empty-listing notice when there is nothing to
/// show, else the header and one row per session at the observed column
/// widths.
pub fn render_report(sessions: &Vec<SessionInfo>, run_dir: &Vec<u8>, show_all: bool) -> (r: Vec<
    u8,
>)
    ensures
        sessions@.len() == 0 && show_all ==> r@ == text_bytes("No sandbox sessions found in ")
            + run_dir@ + text_bytes("\n"),
        sessions@.len() == 0 && !show_all ==> r@ == text_bytes(
            "No running sandbox sessions. Use -a to show all sessions.\n",
        ),
        sessions@.len() > 0 ==> r@ == header_spec(
            id_width_of(views_of(sessions@)),
            mount_width_of(views_of(sessions@)),
        ) + rows_spec(
            views_of(sessions@),
            id_width_of(views_of(sessions@)),
            mount_width_of(views_of(sessions@)),
        ),
{
    if sessions.len() == 0 {
        if show_all {
            let mut r = lit_bytes("No sandbox sessions found in ");
            append_bytes(&mut r, run_dir);
            let nl = lit_bytes("\n");
            append_bytes(&mut r, &nl);
            return r;
        }
        return lit_bytes("No running sandbox sessions. Use -a to show all sessions.\n");
    }
    let ghost all = views_of(sessions@);
    let idw = id_column_width(sessions);
    let mw = mount_column_width(sessions);
    let mut r = render_header(idw, mw);
    let ghost header = r@;
    let mut k: usize = 0;
    proof {
        assert(all.skip(0) =~= all);
        assert(r@ + rows_spec(all.skip(0), idw as int, mw as int) =~= header + rows_spec(
            all,
            idw as int,
            mw as int,
        ));
    }
    while k < sessions.len()
        invariant
            k <= sessions@.len(),
            all == views_of(sessions@),
            all.len() == sessions@.len(),
            header + rows_spec(all, idw as int, mw as int) == r@ + rows_spec(
                all.skip(k as int),
                idw as int,
                mw as int,
            ),
        decreases sessions.len() - k,
    {
        proof {
            assert(all.skip(k as int)[0] == all[k as int]);
            assert(all.skip(k as int).drop_first() =~= all.skip(k + 1));
            assert(all.skip(k as int).len() > 0);
            assert(rows_spec(all.skip(k as int), idw as int, mw as int) == row_spec(
                all[k as int],
                idw as int,
                mw as int,
            ) + rows_spec(all.skip(k + 1), idw as int, mw as int));
        }
        let ghost before = r@;
        let row = render_row(&sessions[k], idw, mw);
        append_bytes(&mut r, &row);
        proof {
            assert(r@ + rows_spec(all.skip(k + 1), idw as int, mw as int) =~= before + rows_spec(
                all.skip(k as int),
                idw as int,
                mw as int,
            ));
        }
        k = k + 1;
    }
    proof {
        assert(all.skip(all.len() as int) =~= Seq::<SessionView>::empty());
        assert(rows_spec(Seq::<SessionView>::empty(), idw as int, mw as int)
            == Seq::<u8>::empty());
        assert(r@ + Seq::<u8>::empty() =~= r@);
    }
    r
}

/// Where the runtime root lies under a home directory.
pub open spec fn run_dir_spec(home: Seq<u8>) -> Seq<u8> {
    home + text_bytes("/.agentfs/run")
}

/// Relies on dirs::home_dir: the user's home directory, read from the
/// environment, so nothing is promised of the value; absence is `None`.
#[verifier::external_body]
fn home_dir_bytes() -> Option<Vec<u8>> {
    dirs::home_dir().map(|p| p.to_string_lossy().to_string().into_bytes())
}

/// The runtime root that holds one subdirectory per session: the home
/// directory (or the working directory, when no home is known) joined with
/// the fixed runtime subpath.
pub fn run_dir() -> (r: Vec<u8>)
    ensures
        exists|home: Seq<u8>| r@ == run_dir_spec(home),
{
    let mut base = match home_dir_bytes() {
        Some(h) => h,
        None => crate::text::lit_bytes("."),
    };
    let ghost home = base@;
    let suffix = crate::text::lit_bytes("/.agentfs/run");
    append_bytes(&mut base, &suffix);
    proof {
        assert(base@ == run_dir_spec(home));
    }
    base
}

} // verus!
