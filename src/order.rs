use vstd::prelude::*;
use vstd::utf8::{encode_utf8, encode_utf8_decode_utf8};

verus! {

/// Strict lexicographic order on byte strings; a proper prefix comes first.
pub open spec fn bytes_lt(a: Seq<u8>, b: Seq<u8>) -> bool
    decreases a.len(),
{
    if b.len() == 0 {
        false
    } else if a.len() == 0 {
        true
    } else if a[0] != b[0] {
        a[0] < b[0]
    } else {
        bytes_lt(a.drop_first(), b.drop_first())
    }
}

/// The order of entry names: their UTF-8 encodings compared byte by byte,
/// which is the order of `str` in Rust.
pub open spec fn name_lt(a: Seq<char>, b: Seq<char>) -> bool {
    bytes_lt(encode_utf8(a), encode_utf8(b))
}

pub proof fn lemma_bytes_lt_irreflexive(a: Seq<u8>)
    ensures
        !bytes_lt(a, a),
    decreases a.len(),
{
    if a.len() > 0 {
        lemma_bytes_lt_irreflexive(a.drop_first());
    }
}

pub proof fn lemma_bytes_lt_transitive(a: Seq<u8>, b: Seq<u8>, c: Seq<u8>)
    requires
        bytes_lt(a, b),
        bytes_lt(b, c),
    ensures
        bytes_lt(a, c),
    decreases a.len(),
{
    if a.len() > 0 && a[0] == b[0] && b[0] == c[0] {
        lemma_bytes_lt_transitive(a.drop_first(), b.drop_first(), c.drop_first());
    }
}

pub proof fn lemma_name_lt_irreflexive(a: Seq<char>)
    ensures
        !name_lt(a, a),
{
    lemma_bytes_lt_irreflexive(encode_utf8(a));
}

pub proof fn lemma_name_lt_transitive(a: Seq<char>, b: Seq<char>, c: Seq<char>)
    requires
        name_lt(a, b),
        name_lt(b, c),
    ensures
        name_lt(a, c),
{
    lemma_bytes_lt_transitive(encode_utf8(a), encode_utf8(b), encode_utf8(c));
}

/// Unfolding `bytes_lt` at an offset where both sides still have bytes.
proof fn lemma_bytes_lt_step(a: Seq<u8>, b: Seq<u8>, i: int)
    requires
        0 <= i < a.len(),
        i < b.len(),
    ensures
        bytes_lt(a.subrange(i, a.len() as int), b.subrange(i, b.len() as int)) == if a[i]
            != b[i] {
            a[i] < b[i]
        } else {
            bytes_lt(a.subrange(i + 1, a.len() as int), b.subrange(i + 1, b.len() as int))
        },
{
    let sa = a.subrange(i, a.len() as int);
    let sb = b.subrange(i, b.len() as int);
    assert(sa.drop_first() =~= a.subrange(i + 1, a.len() as int));
    assert(sb.drop_first() =~= b.subrange(i + 1, b.len() as int));
}

/// Compares two names in the order of `name_lt`.
pub fn compare_names(a: &str, b: &str) -> (r: core::cmp::Ordering)
    ensures
        (r == core::cmp::Ordering::Equal) == (a@ == b@),
        (r == core::cmp::Ordering::Less) == name_lt(a@, b@),
        (r == core::cmp::Ordering::Greater) == name_lt(b@, a@),
{
    let x = a.as_bytes();
    let y = b.as_bytes();
    let ghost ea = encode_utf8(a@);
    let ghost eb = encode_utf8(b@);
    proof {
        encode_utf8_decode_utf8(a@);
        encode_utf8_decode_utf8(b@);
        lemma_bytes_lt_irreflexive(ea);
        assert(ea.subrange(0, ea.len() as int) =~= ea);
        assert(eb.subrange(0, eb.len() as int) =~= eb);
    }
    let mut i: usize = 0;
    while i < x.len() && i < y.len()
        invariant
            ea == encode_utf8(a@),
            eb == encode_utf8(b@),
            x@ == ea,
            y@ == eb,
            a@ == b@ <==> ea == eb,
            i <= x.len(),
            i <= y.len(),
            ea.subrange(0, i as int) == eb.subrange(0, i as int),
            bytes_lt(ea, eb) == bytes_lt(
                ea.subrange(i as int, ea.len() as int),
                eb.subrange(i as int, eb.len() as int),
            ),
            bytes_lt(eb, ea) == bytes_lt(
                eb.subrange(i as int, eb.len() as int),
                ea.subrange(i as int, ea.len() as int),
            ),
        decreases x.len() - i,
    {
        proof {
            lemma_bytes_lt_step(ea, eb, i as int);
            lemma_bytes_lt_step(eb, ea, i as int);
        }
        if x[i] < y[i] {
            proof {
                assert(ea[i as int] != eb[i as int]);
            }
            return core::cmp::Ordering::Less;
        }
        if x[i] > y[i] {
            proof {
                assert(ea[i as int] != eb[i as int]);
            }
            return core::cmp::Ordering::Greater;
        }
        assert(ea.subrange(0, i + 1) =~= ea.subrange(0, i as int).push(ea[i as int]));
        assert(eb.subrange(0, i + 1) =~= eb.subrange(0, i as int).push(eb[i as int]));
        i = i + 1;
    }
    if x.len() == y.len() {
        assert(ea =~= ea.subrange(0, i as int));
        assert(eb =~= eb.subrange(0, i as int));
        core::cmp::Ordering::Equal
    } else if x.len() < y.len() {
        proof {
            if ea == eb {
                assert(false);
            }
        }
        core::cmp::Ordering::Less
    } else {
        core::cmp::Ordering::Greater
    }
}

} // verus!
