//! What holds of the payload order of every message.

use super::msg_parser::{
    lemma_sorted_len, spec_compute_offsets, spec_layout, spec_offset_of, spec_pick, spec_sorted,
    spec_split, spec_total_size, FieldView,
};
use vstd::multiset::Multiset;
use vstd::prelude::*;
use vstd::seq_lib::{lemma_multiset_commutative, to_multiset_build, to_multiset_remove};

verus! {

/// The four widths that a field can have.
pub open spec fn spec_is_width(w: nat) -> bool {
    w == 8 || w == 4 || w == 2 || w == 1
}

/// Every field has one of the four widths.
pub proof fn lemma_width_of_field(f: FieldView)
    ensures
        spec_is_width(f.width()),
{
}

/// Picking a width keeps only fields of that width.
pub proof fn lemma_pick_widths(fields: Seq<FieldView>, w: nat)
    ensures
        forall|i: int|
            0 <= i < spec_pick(fields, w).len() ==> (#[trigger] spec_pick(fields, w)[i]).width()
                == w,
    decreases fields.len(),
{
    if fields.len() > 0 {
        lemma_pick_widths(fields.drop_last(), w);
        let rest = spec_pick(fields.drop_last(), w);
        assert forall|i: int| 0 <= i < spec_pick(fields, w).len() implies (#[trigger] spec_pick(
            fields,
            w,
        )[i]).width() == w by {
            if i < rest.len() {
                assert(spec_pick(fields, w)[i] == rest[i]);
            }
        }
    }
}

/// Picking from a concatenation picks from both parts, in order.
pub proof fn lemma_pick_concat(a: Seq<FieldView>, b: Seq<FieldView>, w: nat)
    ensures
        spec_pick(a + b, w) == spec_pick(a, w) + spec_pick(b, w),
    decreases b.len(),
{
    if b.len() == 0 {
        assert(a + b == a);
        assert(spec_pick(a, w) + Seq::<FieldView>::empty() == spec_pick(a, w));
    } else {
        assert((a + b).drop_last() == a + b.drop_last());
        assert((a + b).last() == b.last());
        lemma_pick_concat(a, b.drop_last(), w);
        if b.last().width() == w {
            assert((spec_pick(a, w) + spec_pick(b.drop_last(), w)).push(b.last()) == spec_pick(a, w)
                + spec_pick(b.drop_last(), w).push(b.last()));
        }
    }
}

/// Picking width `w` from fields that all have width `v` keeps all of them
/// when `v` is `w`, and none otherwise.
pub proof fn lemma_pick_uniform(fields: Seq<FieldView>, v: nat, w: nat)
    requires
        forall|i: int| 0 <= i < fields.len() ==> (#[trigger] fields[i]).width() == v,
    ensures
        spec_pick(fields, w) == if v == w {
            fields
        } else {
            Seq::<FieldView>::empty()
        },
    decreases fields.len(),
{
    if fields.len() > 0 {
        lemma_pick_uniform(fields.drop_last(), v, w);
        assert(fields.last() == fields[fields.len() - 1]);
        if v == w {
            assert(fields.drop_last().push(fields.last()) == fields);
        }
    }
}

/// Sorting is stable: the fields of each width stand in the sorted order as
/// they stand in the declaration.
pub proof fn lemma_sorted_is_stable(base: Seq<FieldView>, w: nat)
    ensures
        spec_pick(spec_sorted(base), w) == spec_pick(base, w),
{
    let p8 = spec_pick(base, 8);
    let p4 = spec_pick(base, 4);
    let p2 = spec_pick(base, 2);
    let p1 = spec_pick(base, 1);
    lemma_pick_concat(p8 + p4 + p2, p1, w);
    lemma_pick_concat(p8 + p4, p2, w);
    lemma_pick_concat(p8, p4, w);
    lemma_pick_widths(base, 8);
    lemma_pick_widths(base, 4);
    lemma_pick_widths(base, 2);
    lemma_pick_widths(base, 1);
    lemma_pick_uniform(p8, 8, w);
    lemma_pick_uniform(p4, 4, w);
    lemma_pick_uniform(p2, 2, w);
    lemma_pick_uniform(p1, 1, w);
    let e = Seq::<FieldView>::empty();
    if w == 8 {
        assert(p8 + e + e + e == p8);
    } else if w == 4 {
        assert(e + p4 + e + e == p4);
    } else if w == 2 {
        assert(e + e + p2 + e == p2);
    } else if w == 1 {
        assert(e + e + e + p1 == p1);
    } else {
        assert(e + e + e + e == e);
        lemma_pick_none(base, w);
    }
}

/// No field has a width outside the four.
pub proof fn lemma_pick_none(fields: Seq<FieldView>, w: nat)
    requires
        !spec_is_width(w),
    ensures
        spec_pick(fields, w) == Seq::<FieldView>::empty(),
    decreases fields.len(),
{
    if fields.len() > 0 {
        lemma_pick_none(fields.drop_last(), w);
    }
}

/// Sorting orders by descending width: no field stands before a wider one.
pub proof fn lemma_sorted_is_descending(base: Seq<FieldView>)
    ensures
        forall|i: int, j: int|
            0 <= i < j < spec_sorted(base).len() ==> (#[trigger] spec_sorted(base)[i]).width() >= (
            #[trigger] spec_sorted(base)[j]).width(),
{
    lemma_pick_widths(base, 8);
    lemma_pick_widths(base, 4);
    lemma_pick_widths(base, 2);
    lemma_pick_widths(base, 1);
    let p8 = spec_pick(base, 8);
    let p4 = spec_pick(base, 4);
    let p2 = spec_pick(base, 2);
    let p1 = spec_pick(base, 1);
    let s = spec_sorted(base);
    assert forall|i: int| 0 <= i < s.len() implies (#[trigger] s[i]).width() == (if i < p8.len() {
        8nat
    } else if i < p8.len() + p4.len() {
        4nat
    } else if i < p8.len() + p4.len() + p2.len() {
        2nat
    } else {
        1nat
    }) by {
        if i < p8.len() {
            assert(s[i] == p8[i]);
        } else if i < p8.len() + p4.len() {
            assert(s[i] == p4[i - p8.len()]);
        } else if i < p8.len() + p4.len() + p2.len() {
            assert(s[i] == p2[i - p8.len() - p4.len()]);
        } else {
            assert(s[i] == p1[i - p8.len() - p4.len() - p2.len()]);
        }
    }
}

/// Sorting only reorders: the sorted fields are the declared ones, each as
/// often as it was declared.
pub proof fn lemma_sorted_is_permutation(base: Seq<FieldView>)
    ensures
        spec_sorted(base).to_multiset() == base.to_multiset(),
    decreases base.len(),
{
    let p8 = spec_pick(base, 8);
    let p4 = spec_pick(base, 4);
    let p2 = spec_pick(base, 2);
    let p1 = spec_pick(base, 1);
    lemma_multiset_commutative(p8 + p4 + p2, p1);
    lemma_multiset_commutative(p8 + p4, p2);
    lemma_multiset_commutative(p8, p4);
    if base.len() == 0 {
        assert(spec_sorted(base) == base);
    } else {
        let rest = base.drop_last();
        let f = base.last();
        let q8 = spec_pick(rest, 8);
        let q4 = spec_pick(rest, 4);
        let q2 = spec_pick(rest, 2);
        let q1 = spec_pick(rest, 1);
        lemma_sorted_is_permutation(rest);
        lemma_multiset_commutative(q8 + q4 + q2, q1);
        lemma_multiset_commutative(q8 + q4, q2);
        lemma_multiset_commutative(q8, q4);
        to_multiset_build(q8, f);
        to_multiset_build(q4, f);
        to_multiset_build(q2, f);
        to_multiset_build(q1, f);
        to_multiset_build(rest, f);
        assert(rest.push(f) == base);
        assert(spec_sorted(base).to_multiset() =~= spec_sorted(rest).to_multiset().insert(f));
    }
}

/// The bytes of a concatenation are the bytes of its parts.
pub proof fn lemma_total_size_concat(a: Seq<FieldView>, b: Seq<FieldView>)
    ensures
        spec_total_size(a + b) == spec_total_size(a) + spec_total_size(b),
    decreases b.len(),
{
    if b.len() == 0 {
        assert(a + b == a);
    } else {
        assert((a + b).drop_last() == a + b.drop_last());
        assert((a + b).last() == b.last());
        lemma_total_size_concat(a, b.drop_last());
    }
}

/// Sorting keeps the bytes that the fields take together.
pub proof fn lemma_sorted_total_size(base: Seq<FieldView>)
    ensures
        spec_total_size(spec_sorted(base)) == spec_total_size(base),
    decreases base.len(),
{
    let p8 = spec_pick(base, 8);
    let p4 = spec_pick(base, 4);
    let p2 = spec_pick(base, 2);
    let p1 = spec_pick(base, 1);
    lemma_total_size_concat(p8 + p4 + p2, p1);
    lemma_total_size_concat(p8 + p4, p2);
    lemma_total_size_concat(p8, p4);
    if base.len() > 0 {
        let rest = base.drop_last();
        lemma_sorted_total_size(rest);
        let q8 = spec_pick(rest, 8);
        let q4 = spec_pick(rest, 4);
        let q2 = spec_pick(rest, 2);
        let q1 = spec_pick(rest, 1);
        lemma_total_size_concat(q8 + q4 + q2, q1);
        lemma_total_size_concat(q8 + q4, q2);
        lemma_total_size_concat(q8, q4);
        let f = base.last();
        assert(q8.push(f).drop_last() == q8);
        assert(q4.push(f).drop_last() == q4);
        assert(q2.push(f).drop_last() == q2);
        assert(q1.push(f).drop_last() == q1);
    }
}

/// The payload order of a message: its base fields sorted, and behind all of
/// them its extension fields exactly as declared.
pub proof fn lemma_layout_keeps_extensions(fields: Seq<FieldView>, extensions: Option<usize>)
    requires
        0 <= spec_split(fields, extensions) <= fields.len(),
    ensures
        spec_layout(fields, extensions).len() == fields.len(),
        spec_layout(fields, extensions).subrange(0, spec_split(fields, extensions)) == spec_sorted(
            fields.subrange(0, spec_split(fields, extensions)),
        ),
        spec_layout(fields, extensions).subrange(
            spec_split(fields, extensions),
            fields.len() as int,
        ) == fields.subrange(spec_split(fields, extensions), fields.len() as int),
        spec_total_size(spec_layout(fields, extensions)) == spec_total_size(fields),
{
    let split = spec_split(fields, extensions);
    let base = fields.subrange(0, split);
    let ext = fields.subrange(split, fields.len() as int);
    lemma_sorted_len(base);
    lemma_sorted_total_size(base);
    lemma_total_size_concat(spec_sorted(base), ext);
    lemma_total_size_concat(base, ext);
    assert(base + ext == fields);
}

/// Two declarations of a message resolve alike when, for each width, their
/// base fields of that width are the same in the same order, and their
/// extension fields are the same in the same order. How fields of different
/// widths are interleaved in the declaration does not matter.
pub proof fn lemma_offsets_ignore_interleaving(
    a: Seq<FieldView>,
    a_extensions: Option<usize>,
    b: Seq<FieldView>,
    b_extensions: Option<usize>,
    targeted: bool,
)
    requires
        0 <= spec_split(a, a_extensions) <= a.len(),
        0 <= spec_split(b, b_extensions) <= b.len(),
        forall|w: nat|
            spec_is_width(w) ==> spec_pick(a.subrange(0, spec_split(a, a_extensions)), w)
                == spec_pick(b.subrange(0, spec_split(b, b_extensions)), w),
        a.subrange(spec_split(a, a_extensions), a.len() as int) == b.subrange(
            spec_split(b, b_extensions),
            b.len() as int,
        ),
    ensures
        spec_layout(a, a_extensions) == spec_layout(b, b_extensions),
        spec_compute_offsets(a, a_extensions, targeted) == spec_compute_offsets(
            b,
            b_extensions,
            targeted,
        ),
{
    assert(spec_is_width(8) && spec_is_width(4) && spec_is_width(2) && spec_is_width(1));
}

/// Bytes that the fields of width `w` among `fields` take together.
pub open spec fn spec_width_size(fields: Seq<FieldView>, w: nat) -> nat {
    spec_total_size(spec_pick(fields, w))
}

/// Fields behind the last field called `name` do not move its offset.
pub proof fn lemma_offset_ignores_tail(front: Seq<FieldView>, tail: Seq<FieldView>, name: Seq<char>)
    requires
        forall|j: int| 0 <= j < tail.len() ==> (#[trigger] tail[j]).name != name,
    ensures
        spec_offset_of(front + tail, name) == spec_offset_of(front, name),
    decreases tail.len(),
{
    if tail.len() == 0 {
        assert(front + tail == front);
    } else {
        assert((front + tail).drop_last() == front + tail.drop_last());
        assert((front + tail).last() == tail[tail.len() - 1]);
        assert forall|j: int| 0 <= j < tail.drop_last().len() implies (#[trigger] tail.drop_last()[j]).name
            != name by {
            assert(tail.drop_last()[j] == tail[j]);
        }
        lemma_offset_ignores_tail(front, tail.drop_last(), name);
    }
}

/// Every picked field is one of the fields picked from.
pub proof fn lemma_pick_members(fields: Seq<FieldView>, w: nat)
    ensures
        forall|k: int|
            0 <= k < spec_pick(fields, w).len() ==> fields.contains(#[trigger] spec_pick(fields, w)[k]),
    decreases fields.len(),
{
    if fields.len() > 0 {
        let rest = fields.drop_last();
        lemma_pick_members(rest, w);
        let picked = spec_pick(fields, w);
        let before = spec_pick(rest, w);
        assert forall|k: int| 0 <= k < picked.len() implies fields.contains(#[trigger] picked[k]) by {
            if k < before.len() {
                assert(picked[k] == before[k]);
                assert(rest.contains(before[k]));
                let j = choose|j: int| 0 <= j < rest.len() && rest[j] == before[k];
                assert(fields[j] == before[k]);
            } else {
                assert(picked[k] == fields[fields.len() - 1]);
            }
        }
    }
}

/// Where a one-byte base field is the last field of its name, its offset is
/// the size of all wider base fields plus the size of the one-byte base
/// fields declared before it.
pub proof fn lemma_offset_of_base_field(
    fields: Seq<FieldView>,
    extensions: Option<usize>,
    name: Seq<char>,
    i: int,
)
    requires
        0 <= i < spec_split(fields, extensions) <= fields.len(),
        fields[i].name == name,
        fields[i].width() == 1,
        forall|j: int| i < j < fields.len() ==> (#[trigger] fields[j]).name != name,
    ensures
        ({
            let base = fields.subrange(0, spec_split(fields, extensions));
            spec_offset_of(spec_layout(fields, extensions), name) == Some(
                spec_width_size(base, 8) + spec_width_size(base, 4) + spec_width_size(base, 2)
                    + spec_width_size(base.subrange(0, i), 1),
            )
        }),
{
    let split = spec_split(fields, extensions);
    let base = fields.subrange(0, split);
    let ext = fields.subrange(split, fields.len() as int);
    let wide = spec_pick(base, 8) + spec_pick(base, 4) + spec_pick(base, 2);
    let before = base.subrange(0, i);
    let after = base.subrange(i + 1, split);
    let f = fields[i];
    assert(base == before.push(f) + after);
    lemma_pick_concat(before.push(f), after, 1);
    assert(before.push(f).drop_last() == before);
    let front = wide + spec_pick(before, 1);
    let tail = spec_pick(after, 1) + ext;
    assert(spec_layout(fields, extensions) == front.push(f) + tail);
    lemma_pick_members(after, 1);
    assert forall|j: int| 0 <= j < tail.len() implies (#[trigger] tail[j]).name != name by {
        if j < spec_pick(after, 1).len() {
            let g = spec_pick(after, 1)[j];
            assert(tail[j] == g);
            assert(after.contains(g));
            let k = choose|k: int| 0 <= k < after.len() && after[k] == g;
            assert(after[k] == fields[i + 1 + k]);
        } else {
            let k = j - spec_pick(after, 1).len();
            assert(tail[j] == ext[k]);
            assert(ext[k] == fields[split + k]);
        }
    }
    lemma_offset_ignores_tail(front.push(f), tail, name);
    assert(front.push(f).drop_last() == front);
    lemma_total_size_concat(wide, spec_pick(before, 1));
    lemma_total_size_concat(spec_pick(base, 8) + spec_pick(base, 4), spec_pick(base, 2));
    lemma_total_size_concat(spec_pick(base, 8), spec_pick(base, 4));
}

/// The fields of one width take the same bytes however the fields are
/// ordered.
pub proof fn lemma_width_size_of_permutation(a: Seq<FieldView>, b: Seq<FieldView>, w: nat)
    requires
        a.to_multiset() == b.to_multiset(),
    ensures
        spec_width_size(a, w) == spec_width_size(b, w),
    decreases a.len(),
{
    broadcast use vstd::seq_lib::group_to_multiset_ensures;

    a.to_multiset_ensures();
    b.to_multiset_ensures();
    if a.len() == 0 {
        assert(b.len() == 0);
        assert(a == b);
    } else {
        let f = a.last();
        let rest = a.drop_last();
        assert(rest.push(f) == a);
        to_multiset_build(rest, f);
        assert(b.to_multiset().count(f) > 0);
        assert(b.contains(f));
        let m = choose|m: int| 0 <= m < b.len() && b[m] == f;
        let others = b.remove(m);
        to_multiset_remove(b, m);
        assert(rest.to_multiset() =~= a.to_multiset().remove(f));
        lemma_width_size_of_permutation(rest, others, w);
        let left = b.subrange(0, m);
        let right = b.subrange(m + 1, b.len() as int);
        assert(b == left.push(f) + right);
        assert(others == left + right);
        lemma_pick_concat(left.push(f), right, w);
        lemma_pick_concat(left, right, w);
        assert(left.push(f).drop_last() == left);
        lemma_total_size_concat(spec_pick(left.push(f), w), spec_pick(right, w));
        lemma_total_size_concat(spec_pick(left, w), spec_pick(right, w));
        if f.width() == w {
            assert(spec_pick(left, w).push(f).drop_last() == spec_pick(left, w));
            assert(spec_pick(rest, w).push(f).drop_last() == spec_pick(rest, w));
        }
    }
}

/// Two orderings of the same base fields give a one-byte field the same
/// offset exactly when the one-byte fields declared before it take the same
/// bytes in both. The field must be the last of its name in each
/// declaration.
pub proof fn lemma_offset_of_permutation(
    a: Seq<FieldView>,
    a_extensions: Option<usize>,
    i: int,
    b: Seq<FieldView>,
    b_extensions: Option<usize>,
    k: int,
    name: Seq<char>,
)
    requires
        0 <= i < spec_split(a, a_extensions) <= a.len(),
        0 <= k < spec_split(b, b_extensions) <= b.len(),
        a.subrange(0, spec_split(a, a_extensions)).to_multiset() == b.subrange(
            0,
            spec_split(b, b_extensions),
        ).to_multiset(),
        a[i].name == name && a[i].width() == 1,
        b[k].name == name && b[k].width() == 1,
        forall|j: int| i < j < a.len() ==> (#[trigger] a[j]).name != name,
        forall|j: int| k < j < b.len() ==> (#[trigger] b[j]).name != name,
    ensures
        spec_offset_of(spec_layout(a, a_extensions), name) == spec_offset_of(
            spec_layout(b, b_extensions),
            name,
        ) <==> spec_width_size(a.subrange(0, spec_split(a, a_extensions)).subrange(0, i), 1)
            == spec_width_size(b.subrange(0, spec_split(b, b_extensions)).subrange(0, k), 1),
{
    let a_base = a.subrange(0, spec_split(a, a_extensions));
    let b_base = b.subrange(0, spec_split(b, b_extensions));
    lemma_offset_of_base_field(a, a_extensions, name, i);
    lemma_offset_of_base_field(b, b_extensions, name, k);
    lemma_width_size_of_permutation(a_base, b_base, 8);
    lemma_width_size_of_permutation(a_base, b_base, 4);
    lemma_width_size_of_permutation(a_base, b_base, 2);
}

} // verus!
