//! The order of labels: lexicographic on their UTF-8 bytes, the order in
//! which `String`s compare and a `BTreeMap<String, _>` keeps its keys.
use vstd::prelude::*;
use vstd::utf8::{encode_utf8, encode_utf8_decode_utf8};

verus! {

/// Lexicographic order on byte strings: a proper prefix comes first.
pub open spec fn bytes_before(a: Seq<u8>, b: Seq<u8>) -> bool
    decreases a.len(),
{
    if a.len() == 0 {
        b.len() > 0
    } else if b.len() == 0 {
        false
    } else if a[0] != b[0] {
        a[0] < b[0]
    } else {
        bytes_before(a.drop_first(), b.drop_first())
    }
}

/// Label `a` sorts before label `b`.
pub open spec fn label_before(a: Seq<char>, b: Seq<char>) -> bool {
    bytes_before(encode_utf8(a), encode_utf8(b))
}

/// Where a label stands relative to another.
#[derive(Clone, Copy, Debug, PartialEq, Eq, Structural)]
pub enum LabelOrder {
    Before,
    Same,
    After,
}

/// No byte string comes before itself.
pub proof fn lemma_bytes_before_irreflexive(a: Seq<u8>)
    ensures
        !bytes_before(a, a),
    decreases a.len(),
{
    if a.len() > 0 {
        lemma_bytes_before_irreflexive(a.drop_first());
    }
}

/// Of two different byte strings exactly one comes first.
pub proof fn lemma_bytes_before_total(a: Seq<u8>, b: Seq<u8>)
    ensures
        a != b ==> (bytes_before(a, b) || bytes_before(b, a)),
        !(bytes_before(a, b) && bytes_before(b, a)),
    decreases a.len(),
{
    if a.len() > 0 && b.len() > 0 && a[0] == b[0] {
        lemma_bytes_before_total(a.drop_first(), b.drop_first());
        if a != b {
            assert(a =~= seq![a[0]] + a.drop_first());
            assert(b =~= seq![b[0]] + b.drop_first());
        }
    } else if a.len() == 0 && b.len() == 0 {
        assert(a =~= b);
    }
}

/// The order on byte strings is transitive.
pub proof fn lemma_bytes_before_transitive(a: Seq<u8>, b: Seq<u8>, c: Seq<u8>)
    requires
        bytes_before(a, b),
        bytes_before(b, c),
    ensures
        bytes_before(a, c),
    decreases a.len(),
{
    if a.len() > 0 && b.len() > 0 && c.len() > 0 && a[0] == b[0] && b[0] == c[0] {
        lemma_bytes_before_transitive(a.drop_first(), b.drop_first(), c.drop_first());
    }
}

/// Behind a common prefix, the order is decided by what follows it.
pub proof fn lemma_bytes_before_common_prefix(a: Seq<u8>, b: Seq<u8>, i: int)
    requires
        0 <= i <= a.len(),
        i <= b.len(),
        a.take(i) == b.take(i),
    ensures
        bytes_before(a, b) == bytes_before(a.skip(i), b.skip(i)),
    decreases i,
{
    if i > 0 {
        assert(a[0] == a.take(i)[0]);
        assert(b[0] == b.take(i)[0]);
        assert(a.drop_first().take(i - 1) =~= a.take(i).drop_first());
        assert(b.drop_first().take(i - 1) =~= b.take(i).drop_first());
        lemma_bytes_before_common_prefix(a.drop_first(), b.drop_first(), i - 1);
        assert(a.drop_first().skip(i - 1) =~= a.skip(i));
        assert(b.drop_first().skip(i - 1) =~= b.skip(i));
    } else {
        assert(a.skip(0) =~= a);
        assert(b.skip(0) =~= b);
    }
}

/// Different labels have different UTF-8 encodings.
pub proof fn lemma_encoding_injective(a: Seq<char>, b: Seq<char>)
    ensures
        a != b ==> encode_utf8(a) != encode_utf8(b),
{
    encode_utf8_decode_utf8(a);
    encode_utf8_decode_utf8(b);
}

/// No label sorts before itself.
pub proof fn lemma_label_irreflexive(a: Seq<char>)
    ensures
        !label_before(a, a),
{
    lemma_bytes_before_irreflexive(encode_utf8(a));
}

/// Of two different labels exactly one sorts first.
pub proof fn lemma_label_total(a: Seq<char>, b: Seq<char>)
    ensures
        a != b ==> (label_before(a, b) || label_before(b, a)),
        !(label_before(a, b) && label_before(b, a)),
{
    lemma_encoding_injective(a, b);
    lemma_bytes_before_total(encode_utf8(a), encode_utf8(b));
}

/// The order on labels is transitive.
pub proof fn lemma_label_transitive(a: Seq<char>, b: Seq<char>, c: Seq<char>)
    requires
        label_before(a, b),
        label_before(b, c),
    ensures
        label_before(a, c),
{
    lemma_bytes_before_transitive(encode_utf8(a), encode_utf8(b), encode_utf8(c));
}

/// Compares two labels by their UTF-8 bytes, as `String`'s `Ord` does.
pub fn compare_labels(a: &str, b: &str) -> (order: LabelOrder)
    ensures
        (order == LabelOrder::Before) == label_before(a@, b@),
        (order == LabelOrder::Same) == (a@ == b@),
        (order == LabelOrder::After) == label_before(b@, a@),
{
    let x = a.as_bytes();
    let y = b.as_bytes();
    let ghost ea = encode_utf8(a@);
    let ghost eb = encode_utf8(b@);
    proof {
        lemma_label_total(a@, b@);
        lemma_encoding_injective(a@, b@);
    }
    let mut i: usize = 0;
    while i < x.len() && i < y.len()
        invariant
            x@ == ea,
            y@ == eb,
            ea == encode_utf8(a@),
            eb == encode_utf8(b@),
            a@ != b@ ==> ea != eb,
            0 <= i <= x@.len(),
            i <= y@.len(),
            x@.take(i as int) == y@.take(i as int),
        decreases x@.len() - i,
    {
        if x[i] != y[i] {
            proof {
                lemma_bytes_before_common_prefix(x@, y@, i as int);
                lemma_bytes_before_common_prefix(y@, x@, i as int);
                assert(x@.skip(i as int)[0] == x@[i as int]);
                assert(y@.skip(i as int)[0] == y@[i as int]);
                if x@ == y@ {
                    assert(x@[i as int] == y@[i as int]);
                }
            }
            if x[i] < y[i] {
                return LabelOrder::Before;
            } else {
                return LabelOrder::After;
            }
        }
        assert(x@.take(i + 1) =~= x@.take(i as int).push(x@[i as int]));
        assert(y@.take(i + 1) =~= y@.take(i as int).push(y@[i as int]));
        i = i + 1;
    }
    proof {
        lemma_bytes_before_common_prefix(x@, y@, i as int);
        lemma_bytes_before_common_prefix(y@, x@, i as int);
    }
    if i == x.len() && i == y.len() {
        assert(x@ =~= x@.take(i as int));
        assert(y@ =~= y@.take(i as int));
        LabelOrder::Same
    } else if i == x.len() {
        assert(x@.skip(i as int).len() == 0);
        LabelOrder::Before
    } else {
        assert(y@.skip(i as int).len() == 0);
        assert(x@ != y@);
        LabelOrder::After
    }
}

} // verus!
