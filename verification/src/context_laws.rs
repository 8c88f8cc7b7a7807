//! Laws of the context manager's resource list: what removal takes away and
//! gives back, what one call undoes, and what every operation keeps.
use vstd::prelude::*;

use crate::context::{
    hot_context, hot_fold, hot_sections, instructions_section, section_chars, section_header, selected_resources,
    dedup, first_missing, folder_ids, found_all, lemma_position, position, removal,
    resource_ids, restored, without, without_all, ContextManager, ContextResource,
};

use crate::text::join;

verus! {

/// No two resources share an id.
pub open spec fn unique_ids(rs: Seq<ContextResource>) -> bool {
    forall|i: int, j: int|
        0 <= i < rs.len() && 0 <= j < rs.len() && i != j ==> rs[i].id@ != rs[j].id@
}

/// The resources of `rs` imported from `folder`, in order.
pub open spec fn from_folder(rs: Seq<ContextResource>, folder: Seq<char>) -> Seq<ContextResource>
    decreases rs.len(),
{
    if rs.len() == 0 {
        Seq::empty()
    } else if rs.last().source_folder@ == folder {
        from_folder(rs.drop_last(), folder).push(rs.last())
    } else {
        from_folder(rs.drop_last(), folder)
    }
}

/// The resources of `rs` imported from anywhere but `folder`, in order.
pub open spec fn outside_folder(rs: Seq<ContextResource>, folder: Seq<char>) -> Seq<
    ContextResource,
>
    decreases rs.len(),
{
    if rs.len() == 0 {
        Seq::empty()
    } else if rs.last().source_folder@ == folder {
        outside_folder(rs.drop_last(), folder)
    } else {
        outside_folder(rs.drop_last(), folder).push(rs.last())
    }
}

/// The resources of `rs` whose ids are not in `s`, in order.
spec fn drop_ids(rs: Seq<ContextResource>, s: Set<Seq<char>>) -> Seq<ContextResource>
    decreases rs.len(),
{
    if rs.len() == 0 {
        Seq::empty()
    } else if s.contains(rs.last().id@) {
        drop_ids(rs.drop_last(), s)
    } else {
        drop_ids(rs.drop_last(), s).push(rs.last())
    }
}

pub(crate) open spec fn distinct(ids: Seq<Seq<char>>) -> bool {
    forall|i: int, j: int| 0 <= i < ids.len() && 0 <= j < ids.len() && i != j ==> ids[i] != ids[j]
}

proof fn lemma_position_at(rs: Seq<ContextResource>, i: int)
    requires
        unique_ids(rs),
        0 <= i < rs.len(),
    ensures
        position(rs, rs[i].id@) == i,
{
    lemma_position(rs, rs[i].id@);
}

pub(crate) proof fn lemma_position_push(rs: Seq<ContextResource>, l: ContextResource, id: Seq<char>)
    ensures
        position(rs.push(l), id) == if position(rs, id) >= 0 {
            position(rs, id)
        } else if l.id@ == id {
            rs.len() as int
        } else {
            -1
        },
    decreases rs.len(),
{
    let pushed = rs.push(l);
    if rs.len() > 0 {
        assert(pushed.drop_first() =~= rs.drop_first().push(l));
        assert(pushed[0] == rs[0]);
        lemma_position_push(rs.drop_first(), l, id);
        if rs[0].id@ != id {
            assert(position(pushed, id) == {
                let p = position(rs.drop_first().push(l), id);
                if p < 0 {
                    -1
                } else {
                    p + 1
                }
            });
        }
    } else {
        assert(pushed.drop_first() =~= Seq::<ContextResource>::empty());
        assert(pushed[0] == l);
        assert(position(pushed.drop_first(), id) == -1);
    }
}

proof fn lemma_unique_drop_last(rs: Seq<ContextResource>)
    requires
        unique_ids(rs),
        rs.len() > 0,
    ensures
        unique_ids(rs.drop_last()),
        forall|j: int| 0 <= j < rs.len() - 1 ==> rs.drop_last()[j].id@ != rs.last().id@,
{
}

proof fn lemma_drop_ids_members(rs: Seq<ContextResource>, s: Set<Seq<char>>)
    ensures
        forall|k: int|
            0 <= k < drop_ids(rs, s).len() ==> exists|j: int|
                0 <= j < rs.len() && rs[j] == #[trigger] drop_ids(rs, s)[k],
    decreases rs.len(),
{
    if rs.len() > 0 {
        lemma_drop_ids_members(rs.drop_last(), s);
        let d = drop_ids(rs.drop_last(), s);
        assert forall|k: int| 0 <= k < drop_ids(rs, s).len() implies exists|j: int|
            0 <= j < rs.len() && rs[j] == #[trigger] drop_ids(rs, s)[k] by {
            if k < d.len() {
                let j = choose|j: int| 0 <= j < rs.drop_last().len() && rs.drop_last()[j] == d[k];
                assert(rs[j] == drop_ids(rs, s)[k]);
            } else {
                assert(rs[rs.len() - 1] == drop_ids(rs, s)[k]);
            }
        }
    }
}

proof fn lemma_drop_ids_unique(rs: Seq<ContextResource>, s: Set<Seq<char>>)
    requires
        unique_ids(rs),
    ensures
        unique_ids(drop_ids(rs, s)),
    decreases rs.len(),
{
    if rs.len() > 0 {
        lemma_unique_drop_last(rs);
        lemma_drop_ids_unique(rs.drop_last(), s);
        lemma_drop_ids_members(rs.drop_last(), s);
        let d = drop_ids(rs.drop_last(), s);
        if !s.contains(rs.last().id@) {
            assert forall|i: int, j: int|
                0 <= i < d.len() + 1 && 0 <= j < d.len() + 1 && i != j implies d.push(
                rs.last(),
            )[i].id@ != d.push(rs.last())[j].id@ by {
                if i == d.len() {
                    let q = choose|q: int| 0 <= q < rs.drop_last().len() && rs.drop_last()[q] == d[j];
                } else if j == d.len() {
                    let q = choose|q: int| 0 <= q < rs.drop_last().len() && rs.drop_last()[q] == d[i];
                }
            }
        }
    }
}

proof fn lemma_drop_ids_none(rs: Seq<ContextResource>, s: Set<Seq<char>>)
    requires
        forall|j: int| 0 <= j < rs.len() ==> !s.contains(#[trigger] rs[j].id@),
    ensures
        drop_ids(rs, s) == rs,
    decreases rs.len(),
{
    if rs.len() > 0 {
        assert forall|j: int| 0 <= j < rs.drop_last().len() implies !s.contains(
            #[trigger] rs.drop_last()[j].id@,
        ) by {
            assert(rs.drop_last()[j] == rs[j]);
        }
        lemma_drop_ids_none(rs.drop_last(), s);
        assert(rs.drop_last().push(rs.last()) =~= rs);
    }
}

proof fn lemma_drop_ids_all(rs: Seq<ContextResource>, s: Set<Seq<char>>)
    requires
        forall|j: int| 0 <= j < rs.len() ==> s.contains(#[trigger] rs[j].id@),
    ensures
        drop_ids(rs, s) == Seq::<ContextResource>::empty(),
    decreases rs.len(),
{
    if rs.len() > 0 {
        assert forall|j: int| 0 <= j < rs.drop_last().len() implies s.contains(
            #[trigger] rs.drop_last()[j].id@,
        ) by {
            assert(rs.drop_last()[j] == rs[j]);
        }
        assert(s.contains(rs[rs.len() - 1].id@));
        lemma_drop_ids_all(rs.drop_last(), s);
    }
}

proof fn lemma_drop_ids_compose(rs: Seq<ContextResource>, s: Set<Seq<char>>, t: Set<Seq<char>>)
    ensures
        drop_ids(drop_ids(rs, s), t) == drop_ids(rs, s.union(t)),
    decreases rs.len(),
{
    if rs.len() > 0 {
        lemma_drop_ids_compose(rs.drop_last(), s, t);
        let d = drop_ids(rs.drop_last(), s);
        if !s.contains(rs.last().id@) {
            assert(d.push(rs.last()).drop_last() =~= d);
        }
    }
}

/// With unique ids, removing the first resource with `id` drops exactly the
/// resources with that id.
proof fn lemma_without_unique(rs: Seq<ContextResource>, id: Seq<char>)
    requires
        unique_ids(rs),
    ensures
        without(rs, id) == drop_ids(rs, Set::empty().insert(id)),
    decreases rs.len(),
{
    lemma_position(rs, id);
    let p = position(rs, id);
    let one = Set::<Seq<char>>::empty().insert(id);
    if p < 0 {
        lemma_drop_ids_none(rs, one);
    } else {
        lemma_unique_drop_last(rs);
        if p == rs.len() - 1 {
            assert(rs.remove(p) =~= rs.drop_last());
            assert forall|j: int| 0 <= j < rs.drop_last().len() implies !one.contains(
                #[trigger] rs.drop_last()[j].id@,
            ) by {}
            lemma_drop_ids_none(rs.drop_last(), one);
        } else {
            lemma_position(rs.drop_last(), id);
            assert(rs.drop_last()[p] == rs[p]);
            assert(position(rs.drop_last(), id) == p);
            lemma_without_unique(rs.drop_last(), id);
            assert(rs.remove(p) =~= rs.drop_last().remove(p).push(rs.last()));
            assert(rs.last().id@ != id);
        }
    }
}

/// With unique ids, removing the resources with each id of `ids` in turn
/// drops exactly the resources whose ids occur in `ids`.
proof fn lemma_without_all_unique(rs: Seq<ContextResource>, ids: Seq<Seq<char>>)
    requires
        unique_ids(rs),
    ensures
        without_all(rs, ids) == drop_ids(rs, ids.to_set()),
    decreases ids.len(),
{
    if ids.len() == 0 {
        lemma_drop_ids_none(rs, ids.to_set());
    } else {
        let init = ids.drop_last();
        lemma_without_all_unique(rs, init);
        lemma_drop_ids_unique(rs, init.to_set());
        lemma_without_unique(drop_ids(rs, init.to_set()), ids.last());
        lemma_drop_ids_compose(rs, init.to_set(), Set::empty().insert(ids.last()));
        assert(init.to_set().union(Set::empty().insert(ids.last())) =~= ids.to_set()) by {
            assert forall|x: Seq<char>| ids.to_set().contains(x) implies init.to_set().union(
                Set::empty().insert(ids.last()),
            ).contains(x) by {
                let k = choose|k: int| 0 <= k < ids.len() && ids[k] == x;
                if k < ids.len() - 1 {
                    assert(init[k] == x);
                }
            }
            assert forall|x: Seq<char>| init.to_set().union(
                Set::empty().insert(ids.last()),
            ).contains(x) implies ids.to_set().contains(x) by {
                if init.contains(x) {
                    let k = choose|k: int| 0 <= k < init.len() && init[k] == x;
                    assert(ids[k] == x);
                } else {
                    assert(ids[ids.len() - 1] == x);
                }
            }
        }
    }
}

pub(crate) proof fn lemma_dedup_members(ids: Seq<Seq<char>>)
    ensures
        dedup(ids).to_set() == ids.to_set(),
        distinct(dedup(ids)),
    decreases ids.len(),
{
    if ids.len() > 0 {
        let init = ids.drop_last();
        lemma_dedup_members(init);
        let d = dedup(init);
        assert forall|x: Seq<char>| #[trigger] ids.contains(x) <==> (init.contains(x) || x
            == ids.last()) by {
            if ids.contains(x) {
                let k = choose|k: int| 0 <= k < ids.len() && ids[k] == x;
                if k < ids.len() - 1 {
                    assert(init[k] == x);
                }
            }
            if init.contains(x) {
                let k = choose|k: int| 0 <= k < init.len() && init[k] == x;
                assert(ids[k] == x);
            }
            if x == ids.last() {
                assert(ids[ids.len() - 1] == x);
            }
        }
        assert(d.to_set().contains(ids.last()) == d.contains(ids.last()));
        if d.contains(ids.last()) {
            assert(d.to_set() =~= ids.to_set());
        } else {
            let e = d.push(ids.last());
            assert forall|x: Seq<char>| #[trigger] e.contains(x) <==> (d.contains(x) || x
                == ids.last()) by {
                if e.contains(x) {
                    let k = choose|k: int| 0 <= k < e.len() && e[k] == x;
                    if k < d.len() {
                        assert(d[k] == x);
                    }
                }
                if d.contains(x) {
                    let k = choose|k: int| 0 <= k < d.len() && d[k] == x;
                    assert(e[k] == x);
                }
                if x == ids.last() {
                    assert(e[d.len() as int] == x);
                }
            }
            assert forall|x: Seq<char>| e.to_set().contains(x) <==> ids.to_set().contains(x) by {
                assert(d.to_set().contains(x) == init.to_set().contains(x));
            }
            assert(e.to_set() =~= ids.to_set());
            assert forall|i: int, j: int| 0 <= i < e.len() && 0 <= j < e.len() && i != j implies e[i]
                != e[j] by {
                if i == d.len() {
                    assert(d.contains(d[j]));
                } else if j == d.len() {
                    assert(d.contains(d[i]));
                }
            }
        }
    }
}

proof fn lemma_dedup_distinct(ids: Seq<Seq<char>>)
    requires
        distinct(ids),
    ensures
        dedup(ids) == ids,
    decreases ids.len(),
{
    if ids.len() > 0 {
        let init = ids.drop_last();
        lemma_dedup_distinct(init);
        if init.contains(ids.last()) {
            let k = choose|k: int| 0 <= k < init.len() && init[k] == ids.last();
            assert(ids[k] == ids[ids.len() - 1]);
        }
        assert(init.push(ids.last()) =~= ids);
    }
}

proof fn lemma_first_missing_none(rs: Seq<ContextResource>, u: Seq<Seq<char>>)
    requires
        forall|i: int| 0 <= i < u.len() ==> position(rs, #[trigger] u[i]) >= 0,
    ensures
        first_missing(rs, u) == None::<Seq<char>>,
    decreases u.len(),
{
    if u.len() > 0 {
        assert(position(rs, u[0]) >= 0);
        assert forall|i: int| 0 <= i < u.drop_first().len() implies position(
            rs,
            #[trigger] u.drop_first()[i],
        ) >= 0 by {
            assert(u.drop_first()[i] == u[i + 1]);
        }
        lemma_first_missing_none(rs, u.drop_first());
    }
}

/// Removing the resource with id `a` keeps a resource with another id `b`.
pub(crate) proof fn lemma_without_keeps(rs: Seq<ContextResource>, a: Seq<char>, b: Seq<char>)
    requires
        a != b,
        position(rs, b) >= 0,
    ensures
        position(without(rs, a), b) >= 0,
{
    lemma_position(rs, a);
    lemma_position(rs, b);
    let p = position(rs, a);
    let q = position(rs, b);
    if p >= 0 {
        let w = rs.remove(p);
        lemma_position(w, b);
        if q < p {
            assert(w[q] == rs[q]);
        } else {
            assert(w[q - 1] == rs[q]);
        }
    }
}

/// The ids of `sub`, looked up in `rs`, give back `sub` when `rs` has unique
/// ids and holds every resource of `sub`.
proof fn lemma_found_members(rs: Seq<ContextResource>, sub: Seq<ContextResource>)
    requires
        unique_ids(rs),
        forall|k: int| 0 <= k < sub.len() ==> exists|j: int| 0 <= j < rs.len() && rs[j] == #[trigger] sub[k],
    ensures
        found_all(rs, resource_ids(sub)) == sub,
{
    assert forall|k: int| 0 <= k < sub.len() implies #[trigger] found_all(rs, resource_ids(sub))[k]
        == sub[k] by {
        let j = choose|j: int| 0 <= j < rs.len() && rs[j] == sub[k];
        lemma_position_at(rs, j);
        assert(resource_ids(sub)[k] == sub[k].id@);
    }
    assert(found_all(rs, resource_ids(sub)) =~= sub);
}

/// Removing every id of `ids`, when each is loaded and the list has unique
/// ids, succeeds and drops exactly those resources.
proof fn lemma_removal_present(rs: Seq<ContextResource>, ids: Seq<Seq<char>>)
    requires
        unique_ids(rs),
        forall|i: int| 0 <= i < ids.len() ==> position(rs, #[trigger] ids[i]) >= 0,
    ensures
        removal(rs, ids) == Ok::<(Seq<ContextResource>, Seq<ContextResource>), Seq<char>>(
            (drop_ids(rs, ids.to_set()), found_all(rs, dedup(ids))),
        ),
{
    let u = dedup(ids);
    lemma_dedup_members(ids);
    assert forall|i: int| 0 <= i < u.len() implies position(rs, #[trigger] u[i]) >= 0 by {
        assert(u.to_set().contains(u[i]));
        let k = choose|k: int| 0 <= k < ids.len() && ids[k] == u[i];
        assert(position(rs, ids[k]) >= 0);
    }
    lemma_first_missing_none(rs, u);
    lemma_without_all_unique(rs, u);
}

proof fn lemma_folder_ids(rs: Seq<ContextResource>, folder: Seq<char>)
    ensures
        folder_ids(rs, folder) == resource_ids(from_folder(rs, folder)),
        forall|k: int|
            0 <= k < from_folder(rs, folder).len() ==> exists|j: int|
                0 <= j < rs.len() && rs[j] == #[trigger] from_folder(rs, folder)[k]
                    && rs[j].source_folder@ == folder,
    decreases rs.len(),
{
    if rs.len() > 0 {
        let init = rs.drop_last();
        lemma_folder_ids(init, folder);
        let f = from_folder(init, folder);
        assert forall|k: int| 0 <= k < from_folder(rs, folder).len() implies exists|j: int|
            0 <= j < rs.len() && rs[j] == #[trigger] from_folder(rs, folder)[k]
                && rs[j].source_folder@ == folder by {
            if k < f.len() {
                let j = choose|j: int|
                    0 <= j < init.len() && init[j] == f[k] && init[j].source_folder@ == folder;
                assert(rs[j] == from_folder(rs, folder)[k]);
            } else {
                assert(rs[rs.len() - 1] == from_folder(rs, folder)[k]);
            }
        }
        if rs.last().source_folder@ == folder {
            assert(resource_ids(f.push(rs.last())) =~= resource_ids(f).push(rs.last().id@));
        }
    }
}

proof fn lemma_drop_folder(rs: Seq<ContextResource>, folder: Seq<char>, s: Set<Seq<char>>)
    requires
        forall|j: int| 0 <= j < rs.len() ==> (s.contains(#[trigger] rs[j].id@) <==> rs[j].source_folder@ == folder),
    ensures
        drop_ids(rs, s) == outside_folder(rs, folder),
    decreases rs.len(),
{
    if rs.len() > 0 {
        assert forall|j: int| 0 <= j < rs.drop_last().len() implies (s.contains(
            #[trigger] rs.drop_last()[j].id@,
        ) <==> rs.drop_last()[j].source_folder@ == folder) by {
            assert(rs.drop_last()[j] == rs[j]);
        }
        assert(s.contains(rs[rs.len() - 1].id@) <==> rs[rs.len() - 1].source_folder@ == folder);
        lemma_drop_folder(rs.drop_last(), folder, s);
    }
}

/// Removing a folder takes away exactly the resources imported from it and
/// returns them in list order; every other resource stays, in order. This
/// holds whenever no two loaded resources share an id.
pub proof fn law_folder_removal_is_exact(rs: Seq<ContextResource>, folder: Seq<char>)
    requires
        unique_ids(rs),
    ensures
        removal(rs, folder_ids(rs, folder)) == Ok::<
            (Seq<ContextResource>, Seq<ContextResource>),
            Seq<char>,
        >((outside_folder(rs, folder), from_folder(rs, folder))),
{
    let f = from_folder(rs, folder);
    let ids = folder_ids(rs, folder);
    lemma_folder_ids(rs, folder);
    assert forall|i: int| 0 <= i < ids.len() implies position(rs, #[trigger] ids[i]) >= 0 by {
        let j = choose|j: int| 0 <= j < rs.len() && rs[j] == f[i] && rs[j].source_folder@ == folder;
        lemma_position_at(rs, j);
    }
    lemma_removal_present(rs, ids);
    assert forall|i: int, j: int| 0 <= i < ids.len() && 0 <= j < ids.len() && i != j implies ids[i]
        != ids[j] by {
        let a = choose|a: int| 0 <= a < rs.len() && rs[a] == f[i] && rs[a].source_folder@ == folder;
        let b = choose|b: int| 0 <= b < rs.len() && rs[b] == f[j] && rs[b].source_folder@ == folder;
        lemma_folder_order(rs, folder, i, j, a, b);
    }
    lemma_dedup_distinct(ids);
    lemma_found_members(rs, f);
    assert forall|j: int| 0 <= j < rs.len() implies (ids.to_set().contains(#[trigger] rs[j].id@)
        <==> rs[j].source_folder@ == folder) by {
        if rs[j].source_folder@ == folder {
            let k = lemma_folder_index(rs, folder, j);
            assert(ids[k] == rs[j].id@);
        }
        if ids.to_set().contains(rs[j].id@) {
            let k = choose|k: int| 0 <= k < ids.len() && ids[k] == rs[j].id@;
            let a = choose|a: int| 0 <= a < rs.len() && rs[a] == f[k] && rs[a].source_folder@ == folder;
            assert(rs[a].id@ == rs[j].id@);
        }
    }
    lemma_drop_folder(rs, folder, ids.to_set());
}

/// Distinct positions of `from_folder` come from distinct resources.
proof fn lemma_folder_order(rs: Seq<ContextResource>, folder: Seq<char>, i: int, j: int, a: int, b: int)
    requires
        unique_ids(rs),
        0 <= i < from_folder(rs, folder).len(),
        0 <= j < from_folder(rs, folder).len(),
        i != j,
        0 <= a < rs.len(),
        0 <= b < rs.len(),
        rs[a] == from_folder(rs, folder)[i],
        rs[b] == from_folder(rs, folder)[j],
    ensures
        rs[a].id@ != rs[b].id@,
    decreases rs.len(),
{
    let init = rs.drop_last();
    let f = from_folder(init, folder);
    lemma_folder_ids(init, folder);
    lemma_unique_drop_last(rs);
    if rs.last().source_folder@ == folder && (i == f.len() || j == f.len()) {
        let other = if i == f.len() {
            j
        } else {
            i
        };
        let q = choose|q: int| 0 <= q < init.len() && init[q] == f[other] && init[q].source_folder@ == folder;
        assert(init[q].id@ != rs.last().id@);
    } else {
        let qa = choose|q: int| 0 <= q < init.len() && init[q] == f[i] && init[q].source_folder@ == folder;
        let qb = choose|q: int| 0 <= q < init.len() && init[q] == f[j] && init[q].source_folder@ == folder;
        lemma_folder_order(init, folder, i, j, qa, qb);
        assert(init[qa] == rs[qa]);
        assert(init[qb] == rs[qb]);
    }
}

/// The place in `from_folder` of a resource imported from `folder`.
proof fn lemma_folder_index(rs: Seq<ContextResource>, folder: Seq<char>, j: int) -> (k: int)
    requires
        0 <= j < rs.len(),
        rs[j].source_folder@ == folder,
    ensures
        0 <= k < from_folder(rs, folder).len(),
        from_folder(rs, folder)[k] == rs[j],
    decreases rs.len(),
{
    let init = rs.drop_last();
    if j == rs.len() - 1 {
        from_folder(init, folder).len() as int
    } else {
        assert(init[j] == rs[j]);
        let k = lemma_folder_index(init, folder, j);
        k
    }
}

/// Removing every resource (when no two share an id) succeeds, leaves the
/// list empty, and returns the whole list in order.
pub proof fn law_remove_all_empties(rs: Seq<ContextResource>)
    requires
        unique_ids(rs),
    ensures
        removal(rs, resource_ids(rs)) == Ok::<
            (Seq<ContextResource>, Seq<ContextResource>),
            Seq<char>,
        >((Seq::<ContextResource>::empty(), rs)),
{
    let ids = resource_ids(rs);
    assert forall|i: int| 0 <= i < ids.len() implies position(rs, #[trigger] ids[i]) >= 0 by {
        lemma_position_at(rs, i);
    }
    lemma_removal_present(rs, ids);
    assert(distinct(ids));
    lemma_dedup_distinct(ids);
    assert forall|k: int| 0 <= k < rs.len() implies exists|j: int|
        0 <= j < rs.len() && rs[j] == #[trigger] rs[k] by {
        assert(rs[k] == rs[k]);
    }
    lemma_found_members(rs, rs);
    assert forall|j: int| 0 <= j < rs.len() implies ids.to_set().contains(#[trigger] rs[j].id@) by {
        assert(ids[j] == rs[j].id@);
    }
    lemma_drop_ids_all(rs, ids.to_set());
}

/// Removing a resource right after loading it, when its id was new, gives
/// back the list and the cached texts as they were before the load.
pub proof fn law_remove_undoes_load(
    rs: Seq<ContextResource>,
    cache: Map<Seq<char>, Seq<char>>,
    r: ContextResource,
    text: Seq<char>,
)
    requires
        position(rs, r.id@) < 0,
        !cache.contains_key(r.id@),
    ensures
        position(rs.push(r), r.id@) == rs.len(),
        without(rs.push(r), r.id@) == rs,
        cache.insert(r.id@, text).remove(r.id@) == cache,
{
    lemma_position_push(rs, r, r.id@);
    assert(rs.push(r).remove(rs.len() as int) =~= rs);
    assert(cache.insert(r.id@, text).remove(r.id@) =~= cache);
}

/// Restoring the same resource twice leaves the list as restoring it once.
pub proof fn law_restore_is_idempotent(rs: Seq<ContextResource>, r: ContextResource)
    ensures
        restored(restored(rs, r), r) == restored(rs, r),
{
    lemma_position_push(rs, r, r.id@);
}

/// Restoring keeps the ids of the list unique.
pub proof fn law_restore_keeps_ids_unique(rs: Seq<ContextResource>, r: ContextResource)
    requires
        unique_ids(rs),
    ensures
        unique_ids(restored(rs, r)),
{
    lemma_position(rs, r.id@);
}

/// Loading a resource under an id that no loaded resource has keeps the
/// ids of the list unique.
pub proof fn law_fresh_load_keeps_ids_unique(rs: Seq<ContextResource>, r: ContextResource)
    requires
        unique_ids(rs),
        position(rs, r.id@) < 0,
    ensures
        unique_ids(rs.push(r)),
{
    lemma_position(rs, r.id@);
}

/// Removing a resource keeps the ids of the list unique.
pub proof fn law_removal_keeps_ids_unique(rs: Seq<ContextResource>, id: Seq<char>)
    requires
        unique_ids(rs),
    ensures
        unique_ids(without(rs, id)),
{
    lemma_without_unique(rs, id);
    lemma_drop_ids_unique(rs, Set::empty().insert(id));
}

/// Removing every resource also drops every cached text: only loaded
/// resources have one.
pub proof fn law_remove_all_clears_cache(m: &ContextManager)
    requires
        m.wf(),
    ensures
        m.cached().remove_keys(resource_ids(m.resources()).to_set()) == Map::<
            Seq<char>,
            Seq<char>,
        >::empty(),
{
    let rs = m.resources();
    assert forall|k: Seq<char>| m.cached().contains_key(k) implies resource_ids(
        rs,
    ).to_set().contains(k) by {
        m.lemma_cached_are_loaded(k);
        lemma_position(rs, k);
        let p = position(rs, k);
        assert(resource_ids(rs)[p] == k);
    }
    assert(m.cached().remove_keys(resource_ids(rs).to_set()) =~= Map::<
        Seq<char>,
        Seq<char>,
    >::empty());
}

proof fn lemma_hot_fold_bounded(
    sel: Seq<ContextResource>,
    cache: Map<Seq<char>, Seq<char>>,
    max: int,
    sections: Seq<Seq<char>>,
    used: int,
)
    requires
        used == section_chars(sections),
    ensures
        section_chars(hot_fold(sel, cache, max, sections, used)) <= if used > max {
            used
        } else {
            max
        },
        used > max ==> hot_fold(sel, cache, max, sections, used) == sections,
    decreases sel.len(),
{
    if sel.len() > 0 {
        let r = sel[0];
        if !cache.contains_key(r.id@) || cache[r.id@].len() == 0 || used >= max {
            lemma_hot_fold_bounded(sel.drop_first(), cache, max, sections, used);
        } else {
            let header = section_header(r);
            let remaining = max - (used + header.len());
            if remaining > 0 {
                let text = cache[r.id@];
                let body = text.take(
                    if remaining < text.len() {
                        remaining
                    } else {
                        text.len() as int
                    },
                );
                let next = sections.push(header + body);
                assert(next.drop_last() =~= sections);
                lemma_hot_fold_bounded(
                    sel.drop_first(),
                    cache,
                    max,
                    next,
                    used + header.len() + body.len(),
                );
            }
        }
    }
}

/// The hot context stays within its budget: the resource sections never
/// take the section text past `max` characters, so the whole section text
/// fits whenever the instructions section does (the instructions are kept
/// even when they alone are longer, and then nothing else is added).
pub proof fn law_hot_context_is_bounded(
    max: nat,
    include_instructions: bool,
    instructions: Seq<char>,
    rs: Seq<ContextResource>,
    cache: Map<Seq<char>, Seq<char>>,
)
    ensures
        ({
            let ss = hot_sections(max as int, include_instructions, instructions, rs, cache);
            let with_instructions = include_instructions && instructions.len() > 0;
            &&& !with_instructions || instructions_section(instructions).len() <= max ==> section_chars(
                ss,
            ) <= max
            &&& with_instructions && instructions_section(instructions).len() > max ==> ss == seq![
                instructions_section(instructions),
            ]
        }),
{
    let first = instructions_section(instructions);
    let with_instructions = include_instructions && instructions.len() > 0;
    let sections: Seq<Seq<char>> = if with_instructions {
        seq![first]
    } else {
        Seq::empty()
    };
    let used: int = if with_instructions {
        first.len() as int
    } else {
        0
    };
    if with_instructions {
        assert(sections.drop_last() =~= Seq::<Seq<char>>::empty());
    }
    assert(section_chars(Seq::<Seq<char>>::empty()) == 0);
    lemma_hot_fold_bounded(selected_resources(rs), cache, max as int, sections, used);
}

/// The section of each resource of `sel` that has cached, non-empty text:
/// its header followed by its whole text, in order.
pub open spec fn full_sections(sel: Seq<ContextResource>, cache: Map<Seq<char>, Seq<char>>) -> Seq<
    Seq<char>,
>
    decreases sel.len(),
{
    if sel.len() == 0 {
        Seq::empty()
    } else {
        let r = sel[0];
        let own: Seq<Seq<char>> = if cache.contains_key(r.id@) && cache[r.id@].len() > 0 {
            seq![section_header(r) + cache[r.id@]]
        } else {
            Seq::empty()
        };
        own + full_sections(sel.drop_first(), cache)
    }
}

proof fn lemma_section_chars_append(a: Seq<Seq<char>>, b: Seq<Seq<char>>)
    ensures
        section_chars(a + b) == section_chars(a) + section_chars(b),
    decreases b.len(),
{
    if b.len() > 0 {
        assert((a + b).drop_last() =~= a + b.drop_last());
        lemma_section_chars_append(a, b.drop_last());
    } else {
        assert(a + b =~= a);
    }
}

proof fn lemma_section_chars_nonneg(ss: Seq<Seq<char>>)
    ensures
        section_chars(ss) >= 0,
    decreases ss.len(),
{
    if ss.len() > 0 {
        lemma_section_chars_nonneg(ss.drop_last());
    }
}

proof fn lemma_hot_fold_takes_all(
    sel: Seq<ContextResource>,
    cache: Map<Seq<char>, Seq<char>>,
    max: int,
    sections: Seq<Seq<char>>,
    used: int,
)
    requires
        used + section_chars(full_sections(sel, cache)) <= max,
    ensures
        hot_fold(sel, cache, max, sections, used) == sections + full_sections(sel, cache),
    decreases sel.len(),
{
    if sel.len() == 0 {
        assert(sections + Seq::<Seq<char>>::empty() =~= sections);
    } else {
        let r = sel[0];
        let rest = full_sections(sel.drop_first(), cache);
        if cache.contains_key(r.id@) && cache[r.id@].len() > 0 {
            let text = cache[r.id@];
            let header = section_header(r);
            let own = seq![header + text];
            assert(section_chars(own) == (header + text).len()) by {
                assert(own.drop_last() =~= Seq::<Seq<char>>::empty());
                assert(section_chars(Seq::<Seq<char>>::empty()) == 0);
            }
            lemma_section_chars_append(own, rest);
            lemma_section_chars_nonneg(rest);
            assert(text.take(text.len() as int) =~= text);
            lemma_hot_fold_takes_all(
                sel.drop_first(),
                cache,
                max,
                sections.push(header + text),
                used + header.len() + text.len(),
            );
            assert(sections.push(header + text) + rest =~= sections + (own + rest));
        } else {
            assert(Seq::<Seq<char>>::empty() + rest =~= rest);
            lemma_hot_fold_takes_all(sel.drop_first(), cache, max, sections, used);
        }
    }
}

/// With a budget that holds them all, the hot context keeps every selected
/// resource with cached, non-empty text: after the instructions (when asked
/// for and present) come the header and whole text of each such resource,
/// in order, none left out.
pub proof fn law_hot_context_keeps_every_fitting_section(
    max: nat,
    include_instructions: bool,
    instructions: Seq<char>,
    rs: Seq<ContextResource>,
    cache: Map<Seq<char>, Seq<char>>,
)
    requires
        (if include_instructions && instructions.len() > 0 {
            instructions_section(instructions).len() as int
        } else {
            0int
        }) + section_chars(full_sections(selected_resources(rs), cache)) <= max,
    ensures
        ({
            let expected = (if include_instructions && instructions.len() > 0 {
                seq![instructions_section(instructions)]
            } else {
                Seq::<Seq<char>>::empty()
            }) + full_sections(selected_resources(rs), cache);
            &&& hot_sections(max as int, include_instructions, instructions, rs, cache) == expected
            &&& max > 0 ==> hot_context(max as int, include_instructions, instructions, rs, cache)
                == join(expected, "\n\n"@)
        }),
{
    let first = instructions_section(instructions);
    let with_instructions = include_instructions && instructions.len() > 0;
    let sections: Seq<Seq<char>> = if with_instructions {
        seq![first]
    } else {
        Seq::empty()
    };
    let used: int = if with_instructions {
        first.len() as int
    } else {
        0
    };
    lemma_hot_fold_takes_all(selected_resources(rs), cache, max as int, sections, used);
}

} // verus!
