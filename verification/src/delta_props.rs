//! Laws of delta application: applying one delta twice leaves the view
//! where applying it once did, and the order a peer listed its deletions
//! in never matters.

use vstd::prelude::*;

use crate::delta::{
    apply_insertions, apply_insertions_from, applied_structure, ins_step, insert_step,
    remove_ids, ViewDelta,
};
use crate::document::{
    excerpts_wf, has_buffer, has_excerpt, BufferReplica, Excerpt, ROOT_EXCERPT_ID,
};
use crate::wire::{decoded_excerpt, WireExcerpt, WireInsertion};

verus! {

/// The excerpt identifier one insertion entry would introduce, when it
/// carries an excerpt.
pub open spec fn inserted_id(w: WireInsertion) -> Option<u64> {
    match w.excerpt {
        Some(e) => Some(e.id),
        None => None,
    }
}

/// True when some entry of `ins` would introduce the identifier `id`.
pub open spec fn entries_insert_id(ins: Seq<WireInsertion>, id: u64) -> bool {
    exists|j: int| 0 <= j < ins.len() && inserted_id(#[trigger] ins[j]) == Some(id)
}

/// An insertion list as an honest producer emits it: no entry names as its
/// predecessor an excerpt that only this same delta introduces at the same
/// or a later position. A leader's predecessor always refers to an excerpt
/// that existed — or was introduced by an earlier entry — when the event
/// was observed.
pub open spec fn insertions_orderly(ins: Seq<WireInsertion>) -> bool {
    forall|k: int, j: int|
        0 <= k <= j < ins.len() ==> match (#[trigger] ins[k]).previous_excerpt_id {
            Some(p) => inserted_id(#[trigger] ins[j]) != Some(p),
            None => true,
        }
}

/// A reachable insertion-walk state: the document is well formed and an
/// open run's position is in bounds.
pub open spec fn walk_ok(ex: Seq<Excerpt>, open: Option<(u64, int)>) -> bool {
    &&& excerpts_wf(ex)
    &&& match open {
        Some((b, pos)) => 0 <= pos <= ex.len(),
        None => true,
    }
}

/// Both passes have a run open in the buffer of the current entry.
pub open spec fn both_runs_open(
    oc: Option<(u64, int)>,
    ob: Option<(u64, int)>,
    buf: u64,
) -> bool {
    match (oc, ob) {
        (Some((bc, pc)), Some((bb, pb))) => bc == buf && bb == buf,
        _ => false,
    }
}

/// Membership in an excerpt sequence after inserting one excerpt.
pub proof fn lemma_has_excerpt_insert(s: Seq<Excerpt>, pos: int, e: Excerpt, id: u64)
    requires
        0 <= pos <= s.len(),
    ensures
        has_excerpt(s.insert(pos, e), id) <==> has_excerpt(s, id) || e.id.id == id,
{
    let r = s.insert(pos, e);
    if has_excerpt(r, id) {
        let i = choose|i: int| 0 <= i < r.len() && (#[trigger] r[i]).id.id == id;
        if i < pos {
            assert(s[i].id.id == id);
        } else if i == pos {
        } else {
            assert(s[i - 1].id.id == id);
        }
    }
    if has_excerpt(s, id) {
        let i = choose|i: int| 0 <= i < s.len() && (#[trigger] s[i]).id.id == id;
        if i < pos {
            assert(r[i].id.id == id);
        } else {
            assert(r[i + 1].id.id == id);
        }
    }
    if e.id.id == id {
        assert(r[pos].id.id == id);
    }
}

/// Removal distributes over concatenation.
pub proof fn lemma_remove_ids_distribute(a: Seq<Excerpt>, b: Seq<Excerpt>, del: Seq<u64>)
    ensures
        remove_ids(a + b, del) == remove_ids(a, del) + remove_ids(b, del),
    decreases b.len(),
{
    if b.len() == 0 {
        assert(a + b =~= a);
        assert(remove_ids(b, del) =~= Seq::<Excerpt>::empty());
        assert(remove_ids(a, del) + remove_ids(b, del) =~= remove_ids(a, del));
    } else {
        lemma_remove_ids_distribute(a, b.drop_last(), del);
        assert((a + b).drop_last() =~= a + b.drop_last());
        assert((a + b).last() == b.last());
        if del.contains(b.last().id.id) {
            assert(remove_ids(a, del) + remove_ids(b, del) == remove_ids(a, del) + remove_ids(
                b.drop_last(),
                del,
            ));
        } else {
            assert(remove_ids(a, del) + remove_ids(b.drop_last(), del).push(b.last()) =~= (
            remove_ids(a, del) + remove_ids(b.drop_last(), del)).push(b.last()));
        }
    }
}

/// A sequence none of whose identifiers is deleted is left unchanged.
pub proof fn lemma_remove_ids_all_kept(s: Seq<Excerpt>, del: Seq<u64>)
    requires
        forall|i: int| 0 <= i < s.len() ==> !del.contains((#[trigger] s[i]).id.id),
    ensures
        remove_ids(s, del) == s,
    decreases s.len(),
{
    if s.len() == 0 {
        assert(remove_ids(s, del) =~= s);
    } else {
        assert(forall|i: int|
            0 <= i < s.drop_last().len() ==> s.drop_last()[i] == (#[trigger] s[i]));
        lemma_remove_ids_all_kept(s.drop_last(), del);
        assert(!del.contains(s[s.len() - 1].id.id));
        assert(remove_ids(s, del) == s.drop_last().push(s.last()));
        assert(s.drop_last().push(s.last()) =~= s);
    }
}

/// Every excerpt removal keeps avoids the deleted identifiers.
pub proof fn lemma_remove_ids_elements(s: Seq<Excerpt>, del: Seq<u64>)
    ensures
        forall|i: int|
            0 <= i < remove_ids(s, del).len() ==> !del.contains(
                (#[trigger] remove_ids(s, del)[i]).id.id,
            ),
    decreases s.len(),
{
    if s.len() == 0 {
    } else {
        lemma_remove_ids_elements(s.drop_last(), del);
        let rest = remove_ids(s.drop_last(), del);
        let r = remove_ids(s, del);
        if !del.contains(s.last().id.id) {
            assert(forall|i: int| 0 <= i < rest.len() ==> rest[i] == (#[trigger] r[i]));
        }
    }
}

/// Removing the same identifiers twice is the same as removing them once.
pub proof fn lemma_remove_ids_idempotent(s: Seq<Excerpt>, del: Seq<u64>)
    ensures
        remove_ids(remove_ids(s, del), del) == remove_ids(s, del),
{
    lemma_remove_ids_elements(s, del);
    lemma_remove_ids_all_kept(remove_ids(s, del), del);
}

/// Removal depends on the deleted identifiers only as a set.
pub proof fn lemma_remove_ids_congruent(s: Seq<Excerpt>, del1: Seq<u64>, del2: Seq<u64>)
    requires
        forall|id: u64| del1.contains(id) <==> del2.contains(id),
    ensures
        remove_ids(s, del1) == remove_ids(s, del2),
    decreases s.len(),
{
    if s.len() == 0 {
        assert(remove_ids(s, del1) =~= remove_ids(s, del2));
    } else {
        lemma_remove_ids_congruent(s.drop_last(), del1, del2);
    }
}

/// Inserting an excerpt whose identifier is deleted leaves the removal
/// result unchanged.
pub proof fn lemma_remove_ids_insert_absorb(s: Seq<Excerpt>, pos: int, e: Excerpt, del: Seq<u64>)
    requires
        0 <= pos <= s.len(),
        del.contains(e.id.id),
    ensures
        remove_ids(s.insert(pos, e), del) == remove_ids(s, del),
{
    let front = s.subrange(0, pos);
    let back = s.subrange(pos, s.len() as int);
    assert(s.insert(pos, e) == front.push(e) + back);
    lemma_remove_ids_distribute(front.push(e), back, del);
    assert(remove_ids(front.push(e), del) == remove_ids(front, del)) by {
        assert(front.push(e).drop_last() =~= front);
        assert(front.push(e).last() == e);
    }
    lemma_remove_ids_distribute(front, back, del);
    assert(front + back =~= s);
}

/// One insertion-walk step keeps the state reachable, only grows the
/// identifier set, introduces at most the entry's own identifier, and
/// keeps an open run open in the same buffer whenever the entry leaves a
/// run open at all.
pub proof fn lemma_ins_step_membership(
    ex: Seq<Excerpt>,
    open: Option<(u64, int)>,
    pool: Seq<BufferReplica>,
    w: WireInsertion,
)
    requires
        walk_ok(ex, open),
    ensures
        walk_ok(ins_step(ex, open, pool, w).0, ins_step(ex, open, pool, w).1),
        forall|id: u64|
            has_excerpt(ex, id) ==> has_excerpt(#[trigger] ins_step(ex, open, pool, w).0, id),
        forall|id: u64|
            has_excerpt(#[trigger] ins_step(ex, open, pool, w).0, id) ==> has_excerpt(ex, id)
                || inserted_id(w) == Some(id),
        match w.excerpt {
            Some(we) => match decoded_excerpt(we) {
                Some(e) => (ins_step(ex, open, pool, w).1 is Some && e.id.id != ROOT_EXCERPT_ID)
                    ==> has_excerpt(ins_step(ex, open, pool, w).0, e.id.id),
                None => true,
            },
            None => true,
        },
{
    crate::delta::lemma_ins_step_ok(ex, open, pool, w);
    let st = ins_step(ex, open, pool, w);
    match w.excerpt {
        Some(we) => match w.previous_excerpt_id {
            Some(p) => {
                if has_buffer(pool, we.buffer_id) && (p == ROOT_EXCERPT_ID || has_excerpt(ex, p)) {
                    let pos: int = if p == ROOT_EXCERPT_ID {
                        0
                    } else {
                        crate::document::excerpt_index(ex, p) + 1
                    };
                    if p != ROOT_EXCERPT_ID {
                        let i = crate::document::excerpt_index(ex, p);
                        assert(0 <= i < ex.len() && ex[i].id.id == p);
                    }
                    lemma_insert_step_membership(ex, pos, we.buffer_id, we);
                }
            },
            None => match open {
                Some((b, pos)) => {
                    if we.buffer_id == b {
                        lemma_insert_step_membership(ex, pos, b, we);
                    }
                },
                None => {},
            },
        },
        None => {},
    }
}

/// Membership behaviour of one run-internal step.
proof fn lemma_insert_step_membership(ex: Seq<Excerpt>, pos: int, buffer: u64, we: WireExcerpt)
    requires
        excerpts_wf(ex),
        0 <= pos <= ex.len(),
    ensures
        forall|id: u64|
            has_excerpt(ex, id) ==> has_excerpt(#[trigger] insert_step(ex, pos, buffer, we).0, id),
        forall|id: u64|
            has_excerpt(#[trigger] insert_step(ex, pos, buffer, we).0, id) ==> has_excerpt(ex, id)
                || we.id == id,
        match decoded_excerpt(we) {
            Some(e) => e.id.id != ROOT_EXCERPT_ID ==> has_excerpt(
                insert_step(ex, pos, buffer, we).0,
                e.id.id,
            ),
            None => true,
        },
{
    match decoded_excerpt(we) {
        Some(e) => {
            if e.id.id == ROOT_EXCERPT_ID || has_excerpt(ex, e.id.id) {
            } else {
                lemma_has_excerpt_insert(ex, pos, e, e.id.id);
                assert forall|id: u64| has_excerpt(ex, id) implies has_excerpt(
                    insert_step(ex, pos, buffer, we).0,
                    id,
                ) by {
                    lemma_has_excerpt_insert(ex, pos, e, id);
                }
                assert forall|id: u64| has_excerpt(
                    insert_step(ex, pos, buffer, we).0,
                    id,
                ) implies has_excerpt(ex, id) || we.id == id by {
                    lemma_has_excerpt_insert(ex, pos, e, id);
                }
            }
        },
        None => {},
    }
}

/// Folding a whole entry list only grows the identifier set, and every new
/// identifier comes from some entry.
pub proof fn lemma_apply_from_ids(
    ex: Seq<Excerpt>,
    open: Option<(u64, int)>,
    pool: Seq<BufferReplica>,
    entries: Seq<WireInsertion>,
)
    requires
        walk_ok(ex, open),
    ensures
        forall|id: u64|
            has_excerpt(ex, id) ==> has_excerpt(
                #[trigger] apply_insertions_from(ex, open, pool, entries),
                id,
            ),
        forall|id: u64|
            has_excerpt(#[trigger] apply_insertions_from(ex, open, pool, entries), id)
                ==> has_excerpt(ex, id) || entries_insert_id(entries, id),
        excerpts_wf(apply_insertions_from(ex, open, pool, entries)),
    decreases entries.len(),
{
    if entries.len() == 0 {
    } else {
        let st = ins_step(ex, open, pool, entries[0]);
        lemma_ins_step_membership(ex, open, pool, entries[0]);
        lemma_apply_from_ids(st.0, st.1, pool, entries.skip(1));
        let result = apply_insertions_from(ex, open, pool, entries);
        assert(result == apply_insertions_from(st.0, st.1, pool, entries.skip(1)));
        assert forall|id: u64| #[trigger] has_excerpt(result, id) implies has_excerpt(ex, id)
            || entries_insert_id(entries, id) by {
            if !has_excerpt(ex, id) {
                if has_excerpt(st.0, id) {
                    assert(inserted_id(entries[0]) == Some(id));
                } else {
                    assert(entries_insert_id(entries.skip(1), id));
                    let j = choose|j: int|
                        0 <= j < entries.skip(1).len() && inserted_id(
                            #[trigger] entries.skip(1)[j],
                        ) == Some(id);
                    assert(entries[j + 1] == entries.skip(1)[j]);
                }
            }
        }
    }
}

/// The heart of the idempotence proof: running the insertion walk a second
/// time, over a document from which the delta's deletions were already
/// taken, reintroduces only deleted identifiers, so removal afterwards
/// lands on the same document again. `b`/`ob` replay the first pass toward
/// its known final sequence `afinal`; `c`/`oc` are the second pass.
proof fn lemma_second_pass(
    b: Seq<Excerpt>,
    ob: Option<(u64, int)>,
    c: Seq<Excerpt>,
    oc: Option<(u64, int)>,
    pool: Seq<BufferReplica>,
    entries: Seq<WireInsertion>,
    del: Seq<u64>,
    afinal: Seq<Excerpt>,
)
    requires
        walk_ok(b, ob),
        walk_ok(c, oc),
        afinal == apply_insertions_from(b, ob, pool, entries),
        remove_ids(c, del) == remove_ids(afinal, del),
        forall|id: u64| has_excerpt(c, id) ==> has_excerpt(afinal, id),
        forall|id: u64| has_excerpt(afinal, id) && !del.contains(id) ==> has_excerpt(c, id),
        match oc {
            Some((bc, pc)) => match ob {
                Some((bb, pb)) => bb == bc,
                None => false,
            },
            None => true,
        },
        insertions_orderly(entries),
    ensures
        remove_ids(apply_insertions_from(c, oc, pool, entries), del) == remove_ids(afinal, del),
    decreases entries.len(), 1int,
{
    if entries.len() == 0 {
    } else {
        let w = entries[0];
        let sb = ins_step(b, ob, pool, w);
        let sc = ins_step(c, oc, pool, w);
        lemma_ins_step_membership(b, ob, pool, w);
        lemma_ins_step_membership(c, oc, pool, w);
        lemma_apply_from_ids(b, ob, pool, entries);
        lemma_apply_from_ids(sb.0, sb.1, pool, entries.skip(1));
        assert(afinal == apply_insertions_from(sb.0, sb.1, pool, entries.skip(1)));
        assert(insertions_orderly(entries.skip(1))) by {
            assert forall|k: int, j: int|
                0 <= k <= j < entries.skip(1).len() implies match (#[trigger] entries.skip(
                1,
            )[k]).previous_excerpt_id {
                Some(p) => inserted_id(#[trigger] entries.skip(1)[j]) != Some(p),
                None => true,
            } by {
                assert(entries.skip(1)[k] == entries[k + 1]);
                assert(entries.skip(1)[j] == entries[j + 1]);
            }
        }
        // The second pass changes the document only in ways removal wipes
        // out again, and keeps the run relation.
        match w.excerpt {
            Some(we) => match w.previous_excerpt_id {
                Some(p) => {
                    if has_buffer(pool, we.buffer_id) && (p == ROOT_EXCERPT_ID || has_excerpt(
                        c,
                        p,
                    )) {
                        // The leader is valid in the second pass; it was in
                        // the first too, since its predecessor cannot be an
                        // identifier this delta itself introduces.
                        if p != ROOT_EXCERPT_ID {
                            assert(has_excerpt(afinal, p));
                            assert(!entries_insert_id(entries, p)) by {
                                if entries_insert_id(entries, p) {
                                    let j = choose|j: int|
                                        0 <= j < entries.len() && inserted_id(
                                            #[trigger] entries[j],
                                        ) == Some(p);
                                    assert(match entries[0].previous_excerpt_id {
                                        Some(q) => inserted_id(entries[j]) != Some(q),
                                        None => true,
                                    });
                                }
                            }
                            assert(has_excerpt(b, p));
                        }
                        lemma_second_pass_insert(b, ob, c, oc, pool, entries, del, afinal, we, sb, sc);
                    } else {
                        // Dropped in the second pass: the document is
                        // untouched and the run closes.
                        lemma_second_pass(sb.0, sb.1, c, None, pool, entries.skip(1), del, afinal);
                    }
                },
                None => match oc {
                    Some((bc, pc)) => {
                        if we.buffer_id == bc {
                            lemma_second_pass_insert(
                                b,
                                ob,
                                c,
                                oc,
                                pool,
                                entries,
                                del,
                                afinal,
                                we,
                                sb,
                                sc,
                            );
                        } else {
                            lemma_second_pass(
                                sb.0,
                                sb.1,
                                c,
                                None,
                                pool,
                                entries.skip(1),
                                del,
                                afinal,
                            );
                        }
                    },
                    None => {
                        lemma_second_pass(sb.0, sb.1, c, None, pool, entries.skip(1), del, afinal);
                    },
                },
            },
            None => {
                lemma_second_pass(sb.0, sb.1, c, None, pool, entries.skip(1), del, afinal);
            },
        }
    }
}

/// The cases of `lemma_second_pass` in which the second pass actually
/// processes the entry: the first pass processed it too, so anything the
/// second pass inserts is an identifier the first pass produced and the
/// deletions then removed.
proof fn lemma_second_pass_insert(
    b: Seq<Excerpt>,
    ob: Option<(u64, int)>,
    c: Seq<Excerpt>,
    oc: Option<(u64, int)>,
    pool: Seq<BufferReplica>,
    entries: Seq<WireInsertion>,
    del: Seq<u64>,
    afinal: Seq<Excerpt>,
    we: WireExcerpt,
    sb: (Seq<Excerpt>, Option<(u64, int)>),
    sc: (Seq<Excerpt>, Option<(u64, int)>),
)
    requires
        walk_ok(b, ob),
        walk_ok(c, oc),
        entries.len() > 0,
        entries[0].excerpt == Some(we),
        sb == ins_step(b, ob, pool, entries[0]),
        sc == ins_step(c, oc, pool, entries[0]),
        afinal == apply_insertions_from(b, ob, pool, entries),
        remove_ids(c, del) == remove_ids(afinal, del),
        forall|id: u64| has_excerpt(c, id) ==> has_excerpt(afinal, id),
        forall|id: u64| has_excerpt(afinal, id) && !del.contains(id) ==> has_excerpt(c, id),
        insertions_orderly(entries.skip(1)),
        // the entry is processed by both passes:
        ({
            ||| (entries[0].previous_excerpt_id matches Some(p) && has_buffer(pool, we.buffer_id)
                && (p == ROOT_EXCERPT_ID || (has_excerpt(c, p) && has_excerpt(b, p))))
            ||| ((entries[0].previous_excerpt_id is None) && both_runs_open(oc, ob, we.buffer_id))
        }),
    ensures
        remove_ids(apply_insertions_from(c, oc, pool, entries), del) == remove_ids(afinal, del),
    decreases entries.len(), 0int,
{
    lemma_ins_step_membership(b, ob, pool, entries[0]);
    lemma_ins_step_membership(c, oc, pool, entries[0]);
    lemma_apply_from_ids(sb.0, sb.1, pool, entries.skip(1));
    assert(afinal == apply_insertions_from(sb.0, sb.1, pool, entries.skip(1)));
    // Both passes leave a run open in the buffer of this entry.
    assert(sb.1 matches Some((bb2, _)) && bb2 == we.buffer_id);
    assert(sc.1 matches Some((bc2, _)) && bc2 == we.buffer_id);
    // Whatever this entry decodes to is present after the first pass.
    match decoded_excerpt(we) {
        Some(e) => {
            if e.id.id != ROOT_EXCERPT_ID {
                assert(has_excerpt(sb.0, e.id.id));
                assert(has_excerpt(afinal, e.id.id));
                if !has_excerpt(c, e.id.id) {
                    // Freshly inserted by the second pass: it must be a
                    // deleted identifier, so removal absorbs it.
                    assert(del.contains(e.id.id));
                    let pos = sc_insert_pos(c, oc, pool, entries[0], we);
                    assert(sc.0 == c.insert(pos, e));
                    assert(0 <= pos <= c.len());
                    lemma_remove_ids_insert_absorb(c, pos, e, del);
                    assert forall|id: u64| has_excerpt(sc.0, id) implies has_excerpt(
                        afinal,
                        id,
                    ) by {
                        lemma_has_excerpt_insert(c, pos, e, id);
                    }
                    assert forall|id: u64| has_excerpt(afinal, id) && !del.contains(
                        id,
                    ) implies has_excerpt(sc.0, id) by {
                        lemma_has_excerpt_insert(c, pos, e, id);
                    }
                } else {
                    assert(sc.0 == c);
                }
            } else {
                assert(sc.0 == c);
            }
        },
        None => {
            assert(sc.0 == c);
        },
    }
    lemma_second_pass(sb.0, sb.1, sc.0, sc.1, pool, entries.skip(1), del, afinal);
}

/// The position at which the second pass would insert this entry's
/// excerpt.
spec fn sc_insert_pos(
    c: Seq<Excerpt>,
    oc: Option<(u64, int)>,
    pool: Seq<BufferReplica>,
    w: WireInsertion,
    we: WireExcerpt,
) -> int {
    match w.previous_excerpt_id {
        Some(p) => if p == ROOT_EXCERPT_ID {
            0
        } else {
            crate::document::excerpt_index(c, p) + 1
        },
        None => match oc {
            Some((bc, pc)) => pc,
            None => 0,
        },
    }
}

/// Applying the same delta twice in a row, with no intervening local
/// change, leaves the document structure exactly where one application
/// did. Runs whose predecessor the delta deleted are simply dropped the
/// second time, and re-inserted excerpts are deleted again. Since the
/// delta's selection and scroll state are decoded against this resulting
/// document and installed as values, the whole observable view state
/// repeats with it. The one class of deltas excluded is never produced by
/// the event coalescer: one whose entry names as predecessor an excerpt
/// that only a later entry of the same delta introduces.
pub proof fn lemma_apply_delta_idempotent(
    ex: Seq<Excerpt>,
    pool: Seq<BufferReplica>,
    delta: ViewDelta,
)
    requires
        excerpts_wf(ex),
        insertions_orderly(delta.inserted_excerpts@),
    ensures
        applied_structure(applied_structure(ex, pool, delta), pool, delta) == applied_structure(
            ex,
            pool,
            delta,
        ),
{
    let ins = delta.inserted_excerpts@;
    let del = delta.deleted_excerpts@;
    let afinal = apply_insertions_from(ex, None, pool, ins);
    let once = remove_ids(afinal, del);
    lemma_apply_from_ids(ex, None, pool, ins);
    crate::delta::lemma_remove_ids_wf(afinal, del);
    lemma_remove_ids_idempotent(afinal, del);
    assert forall|id: u64| has_excerpt(once, id) implies has_excerpt(afinal, id) by {
        crate::delta::lemma_remove_ids_member(afinal, del, id);
    }
    assert forall|id: u64| has_excerpt(afinal, id) && !del.contains(id) implies has_excerpt(
        once,
        id,
    ) by {
        crate::delta::lemma_remove_ids_member(afinal, del, id);
    }
    lemma_second_pass(ex, None, once, None, pool, ins, del, afinal);
}

/// Applying a delta whose deleted-identifier list is given in any other
/// order — or with repetitions — produces the same excerpt sequence: only
/// the set of deleted identifiers matters.
pub proof fn lemma_deletion_order_independent(
    ex: Seq<Excerpt>,
    pool: Seq<BufferReplica>,
    d1: ViewDelta,
    d2: ViewDelta,
)
    requires
        d1.inserted_excerpts@ == d2.inserted_excerpts@,
        forall|id: u64| d1.deleted_excerpts@.contains(id) <==> d2.deleted_excerpts@.contains(id),
    ensures
        applied_structure(ex, pool, d1) == applied_structure(ex, pool, d2),
{
    lemma_remove_ids_congruent(
        apply_insertions(ex, pool, d1.inserted_excerpts@),
        d1.deleted_excerpts@,
        d2.deleted_excerpts@,
    );
}

} // verus!
