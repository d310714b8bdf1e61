//! Collision resolution for one actor against static obstacles.
//!
//! Each resolution pass casts a wide probe box at the actor's position,
//! collects a contact for every obstacle the probe overlaps, orders the
//! contacts by descending squared overlap so the deepest one is handled
//! first, and then pushes the actor out of each contacted obstacle along
//! the axis whose correction is cheaper, using a smaller precise box.

use vstd::prelude::*;
use vstd::seq_lib::group_to_multiset_ensures;
use crate::geom::{
    AABB, Vec2, abs_int, box_within_limits, disp_spec, len_sq_spec, overlap_x, overlap_y,
    size_within, vec2_within, CENTER_LIMIT,
};

verus! {

/// Largest magnitude accepted for an obstacle center or any half-extent
/// handed to the resolver.
pub const HALF_LIMIT: i64 = 0x1000_0000;

/// Largest magnitude an actor position may have; pushes keep positions
/// within this bound because a pushed actor lands flush against an
/// obstacle's edge.
pub const POS_LIMIT: i64 = 0x3000_0000;

/// A detected overlap between the actor's probe box and one obstacle:
/// the obstacle's position in the obstacle list and the per-axis overlap.
#[derive(Clone, Copy, PartialEq, Eq, Structural, Debug)]
pub struct Contact {
    pub index: usize,
    pub disp: Vec2,
}

/// An obstacle the resolver accepts: center and half-extents within
/// `HALF_LIMIT`.
pub open spec fn obstacle_within(b: AABB) -> bool {
    &&& vec2_within(b.center, HALF_LIMIT as int)
    &&& size_within(b.size, HALF_LIMIT as int)
}

/// Contacts are ranked by the squared magnitude of their overlap.
pub open spec fn contact_key(c: Contact) -> int {
    len_sq_spec(c.disp)
}

/// The contacts among the first `n` obstacles, in obstacle order: one for
/// each obstacle the probe box overlaps.
pub open spec fn contacts_upto(obstacles: Seq<AABB>, probe: AABB, n: int) -> Seq<Contact>
    decreases n,
{
    if n <= 0 {
        Seq::<Contact>::empty()
    } else {
        let rest = contacts_upto(obstacles, probe, n - 1);
        match disp_spec(obstacles[n - 1], probe) {
            Option::Some(d) => rest.push(Contact { index: (n - 1) as usize, disp: d }),
            Option::None => rest,
        }
    }
}

/// All contacts between the probe box and the obstacle list.
pub open spec fn contacts_spec(obstacles: Seq<AABB>, probe: AABB) -> Seq<Contact> {
    contacts_upto(obstacles, probe, obstacles.len() as int)
}

/// Where `insert_contact` places a new contact in a list that is already
/// ordered: behind every contact with an overlap at least as deep, so that
/// equal overlaps keep their original order.
pub open spec fn insert_contact(s: Seq<Contact>, c: Contact) -> Seq<Contact>
    decreases s.len(),
{
    if s.len() == 0 {
        seq![c]
    } else if contact_key(s.last()) < contact_key(c) {
        insert_contact(s.drop_last(), c).push(s.last())
    } else {
        s.push(c)
    }
}

/// Insertion sort of a contact list by descending squared overlap, stable
/// for contacts of equal depth.
pub open spec fn sort_contacts_spec(s: Seq<Contact>) -> Seq<Contact>
    decreases s.len(),
{
    if s.len() == 0 {
        Seq::<Contact>::empty()
    } else {
        insert_contact(sort_contacts_spec(s.drop_last()), s.last())
    }
}

/// Ordered by descending squared overlap.
pub open spec fn sorted_desc(s: Seq<Contact>) -> bool {
    forall|i: int, j: int|
        0 <= i <= j < s.len() ==> contact_key(s[i]) >= contact_key(s[j])
}

/// Contacts of equal depth stand in obstacle order.
pub open spec fn tie_ordered(s: Seq<Contact>) -> bool {
    forall|i: int, j: int|
        0 <= i < j < s.len() && contact_key(#[trigger] s[i]) == contact_key(#[trigger] s[j])
            ==> s[i].index < s[j].index
}

/// Gathers a contact for every obstacle that the probe box overlaps,
/// in obstacle order.
pub fn gather_contacts(obstacles: &Vec<AABB>, probe: AABB) -> (r: Vec<Contact>)
    requires
        box_within_limits(probe),
        forall|i: int| 0 <= i < obstacles@.len() ==> obstacle_within(#[trigger] obstacles@[i]),
    ensures
        r@ == contacts_spec(obstacles@, probe),
        forall|k: int|
            0 <= k < r@.len() ==> (#[trigger] r@[k]).index < obstacles@.len() && vec2_within(
                r@[k].disp,
                CENTER_LIMIT as int,
            ),
        forall|k1: int, k2: int|
            0 <= k1 < k2 < r@.len() ==> (#[trigger] r@[k1]).index < (#[trigger] r@[k2]).index,
{
    let mut r: Vec<Contact> = Vec::new();
    let mut i: usize = 0;
    while i < obstacles.len()
        invariant
            i <= obstacles@.len(),
            box_within_limits(probe),
            forall|k: int| 0 <= k < obstacles@.len() ==> obstacle_within(#[trigger] obstacles@[k]),
            r@ == contacts_upto(obstacles@, probe, i as int),
            forall|k: int|
                0 <= k < r@.len() ==> (#[trigger] r@[k]).index < i && vec2_within(
                    r@[k].disp,
                    CENTER_LIMIT as int,
                ),
            forall|k1: int, k2: int|
                0 <= k1 < k2 < r@.len() ==> (#[trigger] r@[k1]).index < (#[trigger] r@[k2]).index,
        decreases obstacles@.len() - i,
    {
        let ob = obstacles[i];
        match ob.displacement(probe) {
            Option::Some(d) => {
                r.push(Contact { index: i, disp: d });
            },
            Option::None => {},
        }
        i += 1;
    }
    r
}

/// `insert_contact` into an ordered list keeps the order, grows the list by
/// one, and permutes the inserted multiset; every element of the result is
/// the new contact or one of the old ones.
proof fn lemma_insert_contact(s: Seq<Contact>, c: Contact)
    requires
        sorted_desc(s),
    ensures
        insert_contact(s, c).len() == s.len() + 1,
        sorted_desc(insert_contact(s, c)),
        insert_contact(s, c).to_multiset() == s.push(c).to_multiset(),
        forall|k: int|
            0 <= k < insert_contact(s, c).len() ==> (#[trigger] insert_contact(s, c)[k]) == c
                || s.contains(insert_contact(s, c)[k]),
    decreases s.len(),
{
    broadcast use group_to_multiset_ensures;

    let r = insert_contact(s, c);
    if s.len() == 0 {
        assert(r =~= Seq::<Contact>::empty().push(c));
        assert(s.push(c) =~= Seq::<Contact>::empty().push(c));
    } else if contact_key(s.last()) < contact_key(c) {
        let d = s.drop_last();
        assert(sorted_desc(d)) by {
            assert(forall|i: int, j: int|
                0 <= i <= j < d.len() ==> contact_key(#[trigger] d[i]) >= contact_key(
                    #[trigger] d[j],
                ));
        }
        lemma_insert_contact(d, c);
        let inner = insert_contact(d, c);
        assert(r == inner.push(s.last()));
        // order: every element of `inner` is `c` or an element of `d`, and
        // both outrank the popped last element of `s`
        assert forall|k: int| 0 <= k < inner.len() implies contact_key(inner[k]) >= contact_key(
            s.last(),
        ) by {
            if inner[k] == c {
            } else {
                let j = choose|j: int| 0 <= j < d.len() && d[j] == inner[k];
                assert(s[j] == d[j]);
                assert(contact_key(s[j]) >= contact_key(s.last()));
            }
        }
        assert(sorted_desc(r)) by {
            assert(forall|i: int, j: int|
                0 <= i <= j < r.len() ==> contact_key(#[trigger] r[i]) >= contact_key(
                    #[trigger] r[j],
                ));
        }
        // multiset: inserting then pushing the popped element commutes
        assert(r.to_multiset() =~= inner.to_multiset().insert(s.last()));
        assert(inner.to_multiset() == d.push(c).to_multiset());
        assert(d.push(c).to_multiset() =~= d.to_multiset().insert(c));
        assert(s.push(c).to_multiset() =~= s.to_multiset().insert(c));
        assert(s =~= d.push(s.last()));
        assert(s.to_multiset() =~= d.to_multiset().insert(s.last()));
        assert(r.to_multiset() =~= s.push(c).to_multiset());
        // element provenance
        assert forall|k: int| 0 <= k < r.len() implies (#[trigger] r[k]) == c || s.contains(
            r[k],
        ) by {
            if k < inner.len() {
                if inner[k] == c {
                } else {
                    let j = choose|j: int| 0 <= j < d.len() && d[j] == inner[k];
                    assert(s[j] == r[k]);
                }
            } else {
                assert(r[k] == s[s.len() - 1]);
            }
        }
    } else {
        assert(r == s.push(c));
        assert(sorted_desc(r)) by {
            assert(forall|i: int|
                0 <= i < s.len() ==> contact_key(#[trigger] s[i]) >= contact_key(s.last()));
            assert(forall|i: int, j: int|
                0 <= i <= j < r.len() ==> contact_key(#[trigger] r[i]) >= contact_key(
                    #[trigger] r[j],
                ));
        }
        assert(forall|k: int|
            0 <= k < r.len() ==> (#[trigger] r[k]) == c || s.contains(r[k])) by {
            assert(forall|k: int| 0 <= k < s.len() ==> r[k] == s[k] && s.contains(#[trigger] s[k]));
        }
    }
}

/// The sorted contact list is a permutation of the input, ordered by
/// descending squared overlap, so the deepest overlap is handled first.
pub proof fn lemma_sort_contacts_properties(s: Seq<Contact>)
    ensures
        sort_contacts_spec(s).len() == s.len(),
        sorted_desc(sort_contacts_spec(s)),
        sort_contacts_spec(s).to_multiset() == s.to_multiset(),
        forall|k: int|
            0 <= k < sort_contacts_spec(s).len() ==> s.contains(#[trigger] sort_contacts_spec(s)[k]),
    decreases s.len(),
{
    broadcast use group_to_multiset_ensures;

    let r = sort_contacts_spec(s);
    if s.len() == 0 {
    } else {
        let d = s.drop_last();
        lemma_sort_contacts_properties(d);
        let inner = sort_contacts_spec(d);
        lemma_insert_contact(inner, s.last());
        assert(r == insert_contact(inner, s.last()));
        assert(r.to_multiset() == inner.push(s.last()).to_multiset());
        assert(inner.push(s.last()).to_multiset() =~= inner.to_multiset().insert(s.last()));
        assert(s =~= d.push(s.last()));
        assert(s.to_multiset() =~= d.to_multiset().insert(s.last()));
        assert(r.to_multiset() == s.to_multiset());
        assert forall|k: int| 0 <= k < r.len() implies s.contains(#[trigger] r[k]) by {
            if r[k] == s.last() {
                assert(s[s.len() - 1] == s.last());
            } else {
                assert(inner.contains(r[k]));
                let j = choose|j: int| 0 <= j < inner.len() && inner[j] == r[k];
                assert(d.contains(inner[j]));
                let m = choose|m: int| 0 <= m < d.len() && d[m] == inner[j];
                assert(s[m] == d[m]);
            }
        }
    }
}

/// `insert_contact` equals a plain sequence insert at the first position
/// whose overlap is strictly shallower than the new contact's.
proof fn lemma_insert_contact_at(s: Seq<Contact>, c: Contact, pos: int)
    requires
        sorted_desc(s),
        0 <= pos <= s.len(),
        forall|k: int| 0 <= k < pos ==> contact_key(#[trigger] s[k]) >= contact_key(c),
        forall|k: int| pos <= k < s.len() ==> contact_key(#[trigger] s[k]) < contact_key(c),
    ensures
        insert_contact(s, c) == s.insert(pos, c),
    decreases s.len(),
{
    if s.len() == 0 {
        assert(insert_contact(s, c) =~= s.insert(pos, c));
    } else if contact_key(s.last()) < contact_key(c) {
        let d = s.drop_last();
        assert(sorted_desc(d)) by {
            assert(forall|i: int, j: int|
                0 <= i <= j < d.len() ==> contact_key(#[trigger] d[i]) >= contact_key(
                    #[trigger] d[j],
                ));
        }
        assert(pos < s.len());
        assert(forall|k: int| 0 <= k < pos ==> contact_key(#[trigger] d[k]) >= contact_key(c));
        assert(forall|k: int| pos <= k < d.len() ==> contact_key(#[trigger] d[k]) < contact_key(c));
        lemma_insert_contact_at(d, c, pos);
        assert(insert_contact(s, c) == d.insert(pos, c).push(s.last()));
        assert(d.insert(pos, c).push(s.last()) =~= s.insert(pos, c));
    } else {
        assert(pos == s.len()) by {
            if pos < s.len() {
                assert(contact_key(s[pos]) < contact_key(c));
                assert(contact_key(s[pos]) >= contact_key(s.last()));
            }
        }
        assert(insert_contact(s, c) == s.push(c));
        assert(s.push(c) =~= s.insert(pos, c));
    }
}

/// Inserting a contact whose obstacle comes after everything already in the
/// list keeps contacts of equal depth in obstacle order: the new contact
/// goes behind every contact at least as deep.
proof fn lemma_insert_contact_stable(s: Seq<Contact>, c: Contact)
    requires
        sorted_desc(s),
        tie_ordered(s),
        forall|k: int| 0 <= k < s.len() ==> (#[trigger] s[k]).index < c.index,
    ensures
        tie_ordered(insert_contact(s, c)),
    decreases s.len(),
{
    let r = insert_contact(s, c);
    if s.len() == 0 {
    } else if contact_key(s.last()) < contact_key(c) {
        let d = s.drop_last();
        assert(sorted_desc(d) && tie_ordered(d)) by {
            assert(forall|i: int, j: int|
                0 <= i <= j < d.len() ==> contact_key(#[trigger] d[i]) >= contact_key(
                    #[trigger] d[j],
                ));
            assert(forall|i: int, j: int|
                0 <= i < j < d.len() && contact_key(#[trigger] d[i]) == contact_key(
                    #[trigger] d[j],
                ) ==> d[i].index < d[j].index);
        }
        lemma_insert_contact_stable(d, c);
        lemma_insert_contact(d, c);
        let inner = insert_contact(d, c);
        assert(r == inner.push(s.last()));
        // no element of `inner` ties with the popped last element: `c` is
        // strictly deeper, and a tying old element would have stood before
        // the last one in `s` already
        assert forall|i: int, j: int|
            0 <= i < j < r.len() && contact_key(#[trigger] r[i]) == contact_key(
                #[trigger] r[j],
            ) implies r[i].index < r[j].index by {
            if j < inner.len() {
                assert(inner[i] == r[i] && inner[j] == r[j]);
            } else {
                assert(r[j] == s.last());
                if r[i] == c {
                } else {
                    let m = choose|m: int| 0 <= m < d.len() && d[m] == r[i];
                    assert(s[m] == d[m]);
                    assert(s[m].index < s.last().index) by {
                        assert(contact_key(s[m]) == contact_key(s[s.len() - 1]));
                    }
                }
            }
        }
    } else {
        assert(r == s.push(c));
        assert forall|i: int, j: int|
            0 <= i < j < r.len() && contact_key(#[trigger] r[i]) == contact_key(
                #[trigger] r[j],
            ) implies r[i].index < r[j].index by {
            if j < s.len() {
                assert(s[i] == r[i] && s[j] == r[j]);
            } else {
                assert(r[j] == c && r[i] == s[i]);
            }
        }
    }
}

/// Sorting is stable: when the input lists each obstacle at most once, in
/// obstacle order, contacts of equal depth keep that order in the sorted
/// list.
pub proof fn lemma_sort_contacts_stable(s: Seq<Contact>)
    requires
        forall|i: int, j: int|
            0 <= i < j < s.len() ==> (#[trigger] s[i]).index < (#[trigger] s[j]).index,
    ensures
        tie_ordered(sort_contacts_spec(s)),
    decreases s.len(),
{
    if s.len() > 0 {
        let d = s.drop_last();
        assert(forall|i: int, j: int|
            0 <= i < j < d.len() ==> (#[trigger] d[i]).index < (#[trigger] d[j]).index) by {
            assert(forall|k: int| 0 <= k < d.len() ==> d[k] == s[k]);
        }
        lemma_sort_contacts_stable(d);
        lemma_sort_contacts_properties(d);
        let inner = sort_contacts_spec(d);
        assert forall|k: int| 0 <= k < inner.len() implies (#[trigger] inner[k]).index
            < s.last().index by {
            assert(d.contains(inner[k]));
            let m = choose|m: int| 0 <= m < d.len() && d[m] == inner[k];
            assert(s[m] == d[m]);
            assert(s[m].index < s[s.len() - 1].index);
        }
        lemma_insert_contact_stable(inner, s.last());
    }
}

/// Sorts the contact list by descending squared overlap; contacts of equal
/// depth keep their relative order.
pub fn sort_contacts(contacts: &mut Vec<Contact>)
    requires
        forall|k: int|
            0 <= k < old(contacts)@.len() ==> vec2_within(
                (#[trigger] old(contacts)@[k]).disp,
                CENTER_LIMIT as int,
            ),
    ensures
        final(contacts)@ == sort_contacts_spec(old(contacts)@),
{
    let mut out: Vec<Contact> = Vec::new();
    let mut i: usize = 0;
    while i < contacts.len()
        invariant
            i <= contacts@.len(),
            contacts@ == old(contacts)@,
            forall|k: int|
                0 <= k < contacts@.len() ==> vec2_within(
                    (#[trigger] contacts@[k]).disp,
                    CENTER_LIMIT as int,
                ),
            out@ == sort_contacts_spec(contacts@.take(i as int)),
            sorted_desc(out@),
            out@.len() == i,
            forall|k: int|
                0 <= k < out@.len() ==> vec2_within((#[trigger] out@[k]).disp, CENTER_LIMIT as int),
        decreases contacts@.len() - i,
    {
        let c = contacts[i];
        let key = c.disp.length_squared();
        let mut j: usize = out.len();
        while j > 0 && out[j - 1].disp.length_squared() < key
            invariant
                j <= out@.len(),
                sorted_desc(out@),
                forall|k: int|
                    0 <= k < out@.len() ==> vec2_within(
                        (#[trigger] out@[k]).disp,
                        CENTER_LIMIT as int,
                    ),
                key == contact_key(c),
                forall|k: int|
                    j <= k < out@.len() ==> contact_key(#[trigger] out@[k]) < contact_key(c),
            decreases j,
        {
            j -= 1;
        }
        proof {
            assert(forall|k: int|
                0 <= k < j ==> contact_key(#[trigger] out@[k]) >= contact_key(c)) by {
                if j > 0 {
                    assert(contact_key(out@[j - 1]) >= contact_key(c));
                    assert(forall|k: int|
                        0 <= k < j ==> contact_key(#[trigger] out@[k]) >= contact_key(
                            out@[j - 1],
                        ));
                }
            }
            lemma_insert_contact_at(out@, c, j as int);
            lemma_insert_contact(out@, c);
            assert(contacts@.take(i + 1).drop_last() =~= contacts@.take(i as int));
            assert(contacts@.take(i + 1).last() == contacts@[i as int]);
        }
        out.insert(j, c);
        i += 1;
    }
    proof {
        assert(contacts@.take(contacts@.len() as int) =~= contacts@);
    }
    *contacts = out;
}

/// The direction-corrected push for one contact: the overlap is negated on
/// each axis on which the actor's center lies strictly below the obstacle's,
/// and only the axis with the smaller correction is applied, ties going to x.
pub open spec fn push_once(pos: Vec2, wall: AABB, d: Vec2) -> Vec2 {
    let dx: int = if pos.x < wall.center.x {
        -(d.x as int)
    } else {
        d.x as int
    };
    let dy: int = if pos.y < wall.center.y {
        -(d.y as int)
    } else {
        d.y as int
    };
    if abs_int(dx) <= abs_int(dy) {
        Vec2 { x: (pos.x + dx) as i64, y: pos.y }
    } else {
        Vec2 { x: pos.x, y: (pos.y + dy) as i64 }
    }
}

/// One resolution pass over an ordered contact list: each contact's overlap
/// is recomputed with the precise box at the current position and pushed;
/// the pass stops early as soon as a recomputed overlap is gone, since the
/// position then counts as resolved.
pub open spec fn resolve_contacts(
    pos: Vec2,
    precise_size: Vec2,
    obstacles: Seq<AABB>,
    contacts: Seq<Contact>,
) -> Vec2
    decreases contacts.len(),
{
    if contacts.len() == 0 {
        pos
    } else {
        let wall = obstacles[contacts[0].index as int];
        match disp_spec(wall, AABB { center: pos, size: precise_size }) {
            Option::None => pos,
            Option::Some(d) => resolve_contacts(
                push_once(pos, wall, d),
                precise_size,
                obstacles,
                contacts.skip(1),
            ),
        }
    }
}

/// What `resolve_actor` computes: up to `steps` passes, each gathering and
/// sorting the probe box's contacts and pushing the actor out of them, done
/// early once a pass finds no contact at all.
pub open spec fn resolve_spec(
    pos: Vec2,
    probe_size: Vec2,
    precise_size: Vec2,
    obstacles: Seq<AABB>,
    steps: nat,
) -> Vec2
    decreases steps,
{
    if steps == 0 {
        pos
    } else {
        let cs = contacts_spec(obstacles, AABB { center: pos, size: probe_size });
        if cs.len() == 0 {
            pos
        } else {
            resolve_spec(
                resolve_contacts(pos, precise_size, obstacles, sort_contacts_spec(cs)),
                probe_size,
                precise_size,
                obstacles,
                (steps - 1) as nat,
            )
        }
    }
}

/// A probe that overlaps no obstacle produces no contact.
proof fn lemma_no_overlap_no_contacts(obstacles: Seq<AABB>, probe: AABB, n: int)
    requires
        forall|i: int| 0 <= i < n ==> disp_spec(#[trigger] obstacles[i], probe) is None,
    ensures
        contacts_upto(obstacles, probe, n).len() == 0,
    decreases n,
{
    if n > 0 {
        lemma_no_overlap_no_contacts(obstacles, probe, n - 1);
    }
}

/// When the actor's probe box overlaps no obstacle, resolution leaves the
/// position unchanged, whatever the iteration budget.
pub proof fn lemma_resolve_no_contact(
    pos: Vec2,
    probe_size: Vec2,
    precise_size: Vec2,
    obstacles: Seq<AABB>,
    steps: nat,
)
    requires
        forall|i: int|
            0 <= i < obstacles.len() ==> disp_spec(
                #[trigger] obstacles[i],
                AABB { center: pos, size: probe_size },
            ) is None,
    ensures
        resolve_spec(pos, probe_size, precise_size, obstacles, steps) == pos,
{
    lemma_no_overlap_no_contacts(
        obstacles,
        AABB { center: pos, size: probe_size },
        obstacles.len() as int,
    );
}

/// A precise box no larger than the probe box misses every obstacle the
/// probe box misses.
pub proof fn lemma_smaller_box_misses(
    wall: AABB,
    pos: Vec2,
    probe_size: Vec2,
    precise_size: Vec2,
)
    requires
        0 <= precise_size.x <= probe_size.x,
        0 <= precise_size.y <= probe_size.y,
        disp_spec(wall, AABB { center: pos, size: probe_size }) is None,
    ensures
        disp_spec(wall, AABB { center: pos, size: precise_size }) is None,
{
}

/// Whatever the obstacle count, a position whose probe box overlaps no
/// obstacle is fully separated: the precise box overlaps none either. This
/// is the shape in which freedom from overlap holds of many obstacles: once
/// a resolution pass finds no contact, every obstacle is clear of the
/// actor's precise box. A single push can land the actor inside another
/// obstacle, so a resolution that spends its whole pass budget pushing may
/// end while an overlap remains.
pub proof fn lemma_quiet_probe_is_fully_resolved(
    pos: Vec2,
    probe_size: Vec2,
    precise_size: Vec2,
    obstacles: Seq<AABB>,
)
    requires
        0 <= precise_size.x <= probe_size.x,
        0 <= precise_size.y <= probe_size.y,
        forall|i: int|
            0 <= i < obstacles.len() ==> disp_spec(
                #[trigger] obstacles[i],
                AABB { center: pos, size: probe_size },
            ) is None,
    ensures
        forall|i: int|
            0 <= i < obstacles.len() ==> disp_spec(
                #[trigger] obstacles[i],
                AABB { center: pos, size: precise_size },
            ) is None,
{
    assert forall|i: int| 0 <= i < obstacles.len() implies disp_spec(
        #[trigger] obstacles[i],
        AABB { center: pos, size: precise_size },
    ) is None by {
        lemma_smaller_box_misses(obstacles[i], pos, probe_size, precise_size);
    }
}

/// A position whose precise box misses the single obstacle is a fixed point
/// of resolution: every pass either finds no contact or drops it at once.
proof fn lemma_resolved_fixed_point(
    pos: Vec2,
    probe_size: Vec2,
    precise_size: Vec2,
    wall: AABB,
    steps: nat,
)
    requires
        disp_spec(wall, AABB { center: pos, size: precise_size }) is None,
    ensures
        resolve_spec(pos, probe_size, precise_size, seq![wall], steps) == pos,
    decreases steps,
{
    if steps > 0 {
        let obstacles = seq![wall];
        let probe = AABB { center: pos, size: probe_size };
        let cs = contacts_spec(obstacles, probe);
        if cs.len() != 0 {
            assert(contacts_upto(obstacles, probe, 0) == Seq::<Contact>::empty());
            assert(obstacles[0] == wall);
            assert(cs == contacts_upto(obstacles, probe, 1));
            let dp = disp_spec(wall, probe)->Some_0;
            let c0 = Contact { index: 0, disp: dp };
            assert(cs =~= seq![c0]);
            assert(cs.drop_last() =~= Seq::<Contact>::empty());
            assert(sort_contacts_spec(cs) == insert_contact(
                sort_contacts_spec(cs.drop_last()),
                c0,
            ));
            assert(sort_contacts_spec(cs) =~= seq![c0]);
            assert(resolve_contacts(pos, precise_size, obstacles, seq![c0]) == pos);
            lemma_resolved_fixed_point(pos, probe_size, precise_size, wall, (steps - 1) as nat);
        }
    }
}

/// Against a single obstacle, one resolution pass is enough: afterwards the
/// actor's precise box no longer overlaps the obstacle. The single push
/// lands the actor flush against the obstacle's edge on the corrected axis,
/// and later passes leave a resolved position alone.
pub proof fn lemma_single_obstacle_separates(
    pos: Vec2,
    probe_size: Vec2,
    precise_size: Vec2,
    wall: AABB,
    steps: nat,
)
    requires
        steps >= 1,
        vec2_within(pos, POS_LIMIT as int),
        size_within(probe_size, HALF_LIMIT as int),
        size_within(precise_size, HALF_LIMIT as int),
        obstacle_within(wall),
        precise_size.x <= probe_size.x,
        precise_size.y <= probe_size.y,
    ensures
        disp_spec(
            wall,
            AABB {
                center: resolve_spec(pos, probe_size, precise_size, seq![wall], steps),
                size: precise_size,
            },
        ) is None,
{
    let obstacles = seq![wall];
    let probe = AABB { center: pos, size: probe_size };
    let cs = contacts_spec(obstacles, probe);
    assert(contacts_upto(obstacles, probe, 0) == Seq::<Contact>::empty());
    assert(obstacles[0] == wall);
    assert(cs == contacts_upto(obstacles, probe, 1));
    match disp_spec(wall, probe) {
        Option::None => {
            assert(cs.len() == 0);
            assert(resolve_spec(pos, probe_size, precise_size, obstacles, steps) == pos);
            lemma_smaller_box_misses(wall, pos, probe_size, precise_size);
        },
        Option::Some(dp) => {
            let c0 = Contact { index: 0, disp: dp };
            assert(cs =~= seq![c0]);
            assert(cs.drop_last() =~= Seq::<Contact>::empty());
            assert(sort_contacts_spec(cs) == insert_contact(
                sort_contacts_spec(cs.drop_last()),
                c0,
            ));
            assert(sort_contacts_spec(cs) =~= seq![c0]);
            let pb = AABB { center: pos, size: precise_size };
            match disp_spec(wall, pb) {
                Option::None => {
                    assert(resolve_contacts(pos, precise_size, obstacles, seq![c0]) == pos);
                    lemma_resolved_fixed_point(
                        pos,
                        probe_size,
                        precise_size,
                        wall,
                        (steps - 1) as nat,
                    );
                },
                Option::Some(d) => {
                    let pos2 = push_once(pos, wall, d);
                    assert(disp_spec(wall, AABB { center: pos2, size: precise_size }) is None)
                        by {
                        let sum_x = wall.size.x + precise_size.x;
                        let sum_y = wall.size.y + precise_size.y;
                        assert(d.x == overlap_x(wall, pb) && d.y == overlap_y(wall, pb));
                        if abs_int(if pos.x < wall.center.x {
                            -(d.x as int)
                        } else {
                            d.x as int
                        }) <= abs_int(if pos.y < wall.center.y {
                            -(d.y as int)
                        } else {
                            d.y as int
                        }) {
                            // pushed along x: the actor lands flush against
                            // the obstacle's x edge
                            if pos.x < wall.center.x {
                                assert(pos2.x == wall.center.x - sum_x);
                            } else {
                                assert(pos2.x == wall.center.x + sum_x);
                            }
                            assert(overlap_x(wall, AABB { center: pos2, size: precise_size })
                                == 0);
                        } else {
                            if pos.y < wall.center.y {
                                assert(pos2.y == wall.center.y - sum_y);
                            } else {
                                assert(pos2.y == wall.center.y + sum_y);
                            }
                            assert(overlap_y(wall, AABB { center: pos2, size: precise_size })
                                == 0);
                        }
                    }
                    assert(seq![c0].skip(1) =~= Seq::<Contact>::empty());
                    assert(resolve_contacts(pos2, precise_size, obstacles, Seq::<Contact>::empty())
                        == pos2);
                    assert(resolve_contacts(pos, precise_size, obstacles, seq![c0]) == pos2);
                    lemma_resolved_fixed_point(
                        pos2,
                        probe_size,
                        precise_size,
                        wall,
                        (steps - 1) as nat,
                    );
                },
            }
        },
    }
}

/// Pushes the actor out of the static obstacles it overlaps.
///
/// Runs up to `steps` passes. Each pass probes with the wide `probe_size`
/// box, sorts the contacts so the deepest overlap is resolved first, then
/// pushes the actor out of each contacted obstacle with the smaller
/// `precise_size` box, along the cheaper axis only; a pass ends early when a
/// recomputed overlap is gone, and the whole resolution ends early when a
/// probe finds no contact. An actor that overlaps nothing is returned
/// unchanged.
pub fn resolve_actor(
    pos: Vec2,
    probe_size: Vec2,
    precise_size: Vec2,
    obstacles: &Vec<AABB>,
    steps: usize,
) -> (r: Vec2)
    requires
        vec2_within(pos, POS_LIMIT as int),
        size_within(probe_size, HALF_LIMIT as int),
        size_within(precise_size, HALF_LIMIT as int),
        forall|i: int| 0 <= i < obstacles@.len() ==> obstacle_within(#[trigger] obstacles@[i]),
    ensures
        r == resolve_spec(pos, probe_size, precise_size, obstacles@, steps as nat),
        vec2_within(r, POS_LIMIT as int),
        (forall|i: int|
            0 <= i < obstacles@.len() ==> disp_spec(
                #[trigger] obstacles@[i],
                AABB { center: pos, size: probe_size },
            ) is None) ==> r == pos,
{
    let mut cur = pos;
    let mut step: usize = 0;
    while step < steps
        invariant_except_break
            step <= steps,
            vec2_within(cur, POS_LIMIT as int),
            size_within(probe_size, HALF_LIMIT as int),
            size_within(precise_size, HALF_LIMIT as int),
            forall|i: int| 0 <= i < obstacles@.len() ==> obstacle_within(#[trigger] obstacles@[i]),
            resolve_spec(cur, probe_size, precise_size, obstacles@, (steps - step) as nat)
                == resolve_spec(pos, probe_size, precise_size, obstacles@, steps as nat),
        ensures
            vec2_within(cur, POS_LIMIT as int),
            cur == resolve_spec(pos, probe_size, precise_size, obstacles@, steps as nat),
        decreases steps - step,
    {
        let probe = AABB { center: cur, size: probe_size };
        let mut contacts = gather_contacts(obstacles, probe);
        if contacts.len() == 0 {
            proof {
                assert(resolve_spec(cur, probe_size, precise_size, obstacles@, (steps - step) as nat)
                    == cur);
            }
            break ;
        }
        proof {
            lemma_sort_contacts_properties(contacts@);
        }
        let ghost unsorted = contacts@;
        sort_contacts(&mut contacts);
        proof {
            assert forall|k: int| 0 <= k < contacts@.len() implies (#[trigger] contacts@[k]).index
                < obstacles@.len() by {
                assert(unsorted.contains(contacts@[k]));
                let j = choose|j: int| 0 <= j < unsorted.len() && unsorted[j] == contacts@[k];
            }
        }
        let ghost pass_start = cur;
        proof {
            assert(contacts@.skip(0) =~= contacts@);
        }
        let mut j: usize = 0;
        while j < contacts.len()
            invariant_except_break
                j <= contacts@.len(),
                vec2_within(cur, POS_LIMIT as int),
                size_within(precise_size, HALF_LIMIT as int),
                forall|i: int|
                    0 <= i < obstacles@.len() ==> obstacle_within(#[trigger] obstacles@[i]),
                forall|k: int|
                    0 <= k < contacts@.len() ==> (#[trigger] contacts@[k]).index
                        < obstacles@.len(),
                resolve_contacts(cur, precise_size, obstacles@, contacts@.skip(j as int))
                    == resolve_contacts(pass_start, precise_size, obstacles@, contacts@),
            ensures
                vec2_within(cur, POS_LIMIT as int),
                cur == resolve_contacts(pass_start, precise_size, obstacles@, contacts@),
            decreases contacts@.len() - j,
        {
            let c = contacts[j];
            let wall = obstacles[c.index];
            let precise = AABB { center: cur, size: precise_size };
            let ghost before = cur;
            match wall.displacement(precise) {
                Option::None => {
                    // the recomputed overlap is gone on some axis: resolved
                    proof {
                        assert(contacts@.skip(j as int)[0] == c);
                    }
                    break ;
                },
                Option::Some(d) => {
                    let ddx = if cur.x < wall.center.x {
                        -d.x
                    } else {
                        d.x
                    };
                    let ddy = if cur.y < wall.center.y {
                        -d.y
                    } else {
                        d.y
                    };
                    let adx = if ddx < 0 {
                        -ddx
                    } else {
                        ddx
                    };
                    let ady = if ddy < 0 {
                        -ddy
                    } else {
                        ddy
                    };
                    if adx <= ady {
                        cur = Vec2 { x: cur.x + ddx, y: cur.y };
                    } else {
                        cur = Vec2 { x: cur.x, y: cur.y + ddy };
                    }
                    proof {
                        assert(contacts@.skip(j as int)[0] == c);
                        assert(cur == push_once(before, wall, d));
                        // a pushed actor lands flush against the obstacle's
                        // edge, which keeps its position within bounds
                        assert(vec2_within(cur, POS_LIMIT as int));
                        assert(contacts@.skip(j as int).skip(1) =~= contacts@.skip(j + 1));
                    }
                },
            }
            j += 1;
        }
        proof {
            assert(contacts@.skip(0) =~= contacts@);
            assert(unsorted == contacts_spec(
                obstacles@,
                AABB { center: pass_start, size: probe_size },
            ));
            assert(resolve_spec(pass_start, probe_size, precise_size, obstacles@, (steps
                - step) as nat) == resolve_spec(
                cur,
                probe_size,
                precise_size,
                obstacles@,
                (steps - step - 1) as nat,
            ));
        }
        step += 1;
    }
    proof {
        if forall|i: int|
            0 <= i < obstacles@.len() ==> disp_spec(
                #[trigger] obstacles@[i],
                AABB { center: pos, size: probe_size },
            ) is None {
            lemma_resolve_no_contact(pos, probe_size, precise_size, obstacles@, steps as nat);
        }
    }
    cur
}

} // verus!
