use vstd::prelude::*;
use vstd::multiset::Multiset;
use vstd::utf8::encode_utf8;
use crate::model::{Input, InputType};

verus! {

broadcast use vstd::seq_lib::to_multiset_insert;

/// Whether `a[i..]` comes no later than `b[i..]` in lexicographic order.
pub open spec fn lex_le_from(a: Seq<u8>, b: Seq<u8>, i: int) -> bool
    decreases a.len() - i,
{
    if i < 0 || i >= a.len() {
        true
    } else if i >= b.len() {
        false
    } else if a[i] != b[i] {
        a[i] < b[i]
    } else {
        lex_le_from(a, b, i + 1)
    }
}

/// Lexicographic order on byte strings, the order in which `str` compares.
pub open spec fn lex_le(a: Seq<u8>, b: Seq<u8>) -> bool {
    lex_le_from(a, b, 0)
}

/// The bytes of an input's name, in UTF-8.
pub open spec fn name_key(input: Input) -> Seq<u8> {
    encode_utf8(input.name@)
}

/// Dosage inputs all come before boolean inputs.
pub open spec fn grouped(s: Seq<Input>) -> bool {
    forall|i: int, j: int| 0 <= i < j < s.len() && s[i].ty is Boolean ==> s[j].ty is Boolean
}

/// Neighbours of one kind are in order of name.
pub open spec fn sorted_by_name(s: Seq<Input>) -> bool {
    forall|k: int|
        0 <= k && k + 1 < s.len() && (s[k].ty is Boolean) == (s[k + 1].ty is Boolean) ==> lex_le(
            name_key(#[trigger] s[k]),
            name_key(s[k + 1]),
        )
}

proof fn lemma_lex_total(a: Seq<u8>, b: Seq<u8>, i: int)
    requires
        0 <= i,
    ensures
        lex_le_from(a, b, i) || lex_le_from(b, a, i),
    decreases a.len() - i,
{
    if i < a.len() && i < b.len() && a[i] == b[i] {
        lemma_lex_total(a, b, i + 1);
    }
}

/// Whether name `a` comes no later than name `b`.
pub fn name_le(a: &String, b: &String) -> (r: bool)
    ensures
        r == lex_le(encode_utf8(a@), encode_utf8(b@)),
{
    let x = a.as_str().as_bytes();
    let y = b.as_str().as_bytes();
    assert(x@ == encode_utf8(a@) && y@ == encode_utf8(b@));
    let mut i: usize = 0;
    while i < x.len()
        invariant
            i <= x@.len(),
            x@ == encode_utf8(a@),
            y@ == encode_utf8(b@),
            forall|j: int| 0 <= j < i ==> j < y@.len() && x@[j] == y@[j],
            lex_le(x@, y@) == lex_le_from(x@, y@, i as int),
        decreases x@.len() - i,
    {
        if i >= y.len() {
            return false;
        }
        if x[i] != y[i] {
            return x[i] < y[i];
        }
        i = i + 1;
    }
    true
}

/// Inserts `x` into a list sorted by name, after the names that precede it
/// and before those that do not.
fn insert_by_name(v: &mut Vec<Input>, x: Input)
    requires
        forall|k: int| 0 <= k && k + 1 < old(v)@.len() ==> lex_le(
            name_key(#[trigger] old(v)@[k]),
            name_key(old(v)@[k + 1]),
        ),
    ensures
        exists|p: int| 0 <= p <= old(v)@.len() && final(v)@ == old(v)@.insert(p, x),
        forall|k: int| 0 <= k && k + 1 < final(v)@.len() ==> lex_le(
            name_key(#[trigger] final(v)@[k]),
            name_key(final(v)@[k + 1]),
        ),
{
    let mut p: usize = 0;
    while p < v.len()
        invariant
            p <= v@.len(),
            forall|j: int| 0 <= j < p ==> !lex_le(name_key(x), name_key(#[trigger] v@[j])),
        ensures
            p <= v@.len(),
            forall|j: int| 0 <= j < p ==> !lex_le(name_key(x), name_key(#[trigger] v@[j])),
            p < v@.len() ==> lex_le(name_key(x), name_key(v@[p as int])),
        decreases v@.len() - p,
    {
        if name_le(&x.name, &v[p].name) {
            break;
        }
        p = p + 1;
    }
    let ghost before = v@;
    proof {
        if p > 0 {
            lemma_lex_total(name_key(x), name_key(before[p - 1]), 0);
        }
    }
    v.insert(p, x);
    assert forall|k: int| 0 <= k && k + 1 < v@.len() implies lex_le(
        name_key(#[trigger] v@[k]),
        name_key(v@[k + 1]),
    ) by {
        if k + 1 < p {
            assert(v@[k] == before[k] && v@[k + 1] == before[k + 1]);
        } else if k + 1 == p {
            assert(v@[k] == before[k] && v@[k + 1] == x);
        } else if k == p {
            assert(v@[k] == x && v@[k + 1] == before[k]);
        } else {
            assert(v@[k] == before[k - 1] && v@[k + 1] == before[k]);
        }
    }
}

/// The order in which inputs are listed: dosage inputs first, then boolean
/// ones, each group by name.
pub fn order_inputs(inputs: Vec<Input>) -> (r: Vec<Input>)
    ensures
        r@.to_multiset() == inputs@.to_multiset(),
        grouped(r@),
        sorted_by_name(r@),
{
    broadcast use vstd::seq_lib::group_to_multiset_ensures, vstd::multiset::group_multiset_axioms;

    let mut rest = inputs;
    let mut doses: Vec<Input> = Vec::new();
    let mut bools: Vec<Input> = Vec::new();
    assert(doses@.to_multiset() =~= Multiset::empty());
    while rest.len() > 0
        invariant
            rest@.to_multiset().add(doses@.to_multiset()).add(bools@.to_multiset())
                == inputs@.to_multiset(),
            forall|k: int| 0 <= k < doses@.len() ==> !(#[trigger] doses@[k].ty is Boolean),
            forall|k: int| 0 <= k < bools@.len() ==> #[trigger] bools@[k].ty is Boolean,
            forall|k: int| 0 <= k && k + 1 < doses@.len() ==> lex_le(
                name_key(#[trigger] doses@[k]),
                name_key(doses@[k + 1]),
            ),
            forall|k: int| 0 <= k && k + 1 < bools@.len() ==> lex_le(
                name_key(#[trigger] bools@[k]),
                name_key(bools@[k + 1]),
            ),
        decreases rest@.len(),
    {
        let ghost before = rest@;
        let x = rest.pop().unwrap();
        proof {
            assert(before =~= rest@.push(x));
            rest@.to_multiset_ensures();
        }
        if x.ty.is_bool() {
            let ghost old_b = bools@;
            insert_by_name(&mut bools, x);
            proof {
                let p = choose|p: int| 0 <= p <= old_b.len() && bools@ == old_b.insert(p, x);
                assert forall|k: int| 0 <= k < bools@.len() implies #[trigger] bools@[k].ty is Boolean by {
                    if k < p {
                        assert(bools@[k] == old_b[k]);
                    } else if k > p {
                        assert(bools@[k] == old_b[k - 1]);
                    }
                }
            }
        } else {
            let ghost old_d = doses@;
            insert_by_name(&mut doses, x);
            proof {
                let p = choose|p: int| 0 <= p <= old_d.len() && doses@ == old_d.insert(p, x);
                assert forall|k: int| 0 <= k < doses@.len() implies !(#[trigger] doses@[k].ty is Boolean) by {
                    if k < p {
                        assert(doses@[k] == old_d[k]);
                    } else if k > p {
                        assert(doses@[k] == old_d[k - 1]);
                    }
                }
            }
        }
    }
    let ghost d = doses@;
    let ghost b = bools@;
    doses.append(&mut bools);
    proof {
        vstd::seq_lib::lemma_multiset_commutative(d, b);
        assert(rest@ =~= Seq::<Input>::empty());
        assert(rest@.to_multiset() =~= Multiset::empty());
        assert(doses@ =~= d + b);
        assert forall|k: int|
            0 <= k && k + 1 < doses@.len() && (doses@[k].ty is Boolean) == (doses@[k + 1].ty is Boolean)
            implies lex_le(name_key(#[trigger] doses@[k]), name_key(doses@[k + 1])) by {
            if k + 1 < d.len() {
            } else if k >= d.len() {
                assert(doses@[k] == b[k - d.len()]);
            } else {
                assert(doses@[k + 1] == b[0]);
            }
        }
    }
    doses
}

} // verus!
