//! The checkpoint byte format: `bincode` with its default function options
//! (fixed-width little-endian integers, `usize` and lengths as `u64`).
use vstd::prelude::*;

verus! {

/// `bincode::ErrorKind`, carried through opaquely.
#[verifier::external_type_specification]
#[verifier::external_body]
pub struct ExBincodeErrorKind(bincode::ErrorKind);

/// The eight little-endian bytes of `x`.
pub open spec fn le_bytes(x: u64) -> Seq<u8> {
    seq![
        x as u8,
        (x >> 8u64) as u8,
        (x >> 16u64) as u8,
        (x >> 24u64) as u8,
        (x >> 32u64) as u8,
        (x >> 40u64) as u8,
        (x >> 48u64) as u8,
        (x >> 56u64) as u8,
    ]
}

/// The words of `s` one after another, each as eight little-endian bytes.
pub open spec fn words_bytes(s: Seq<u64>) -> Seq<u8>
    decreases s.len(),
{
    if s.len() == 0 {
        Seq::empty()
    } else {
        le_bytes(s[0]) + words_bytes(s.drop_first())
    }
}

/// `bincode`'s encoding of a list of `u64`: its length, then its entries.
pub open spec fn bincode_u64_list(s: Seq<u64>) -> Seq<u8> {
    le_bytes(s.len() as u64) + words_bytes(s)
}

/// A list of `usize` widened to `u64`, as `bincode` writes it.
pub open spec fn widen(s: Seq<usize>) -> Seq<u64> {
    s.map_values(|x: usize| x as u64)
}

/// `bincode`'s encoding of a list of `usize`.
pub open spec fn bincode_usize_list(s: Seq<usize>) -> Seq<u8> {
    bincode_u64_list(widen(s))
}

/// The encodings of the lists of `g`, one after another.
pub open spec fn rows_bytes(g: Seq<Seq<usize>>) -> Seq<u8>
    decreases g.len(),
{
    if g.len() == 0 {
        Seq::empty()
    } else {
        bincode_usize_list(g[0]) + rows_bytes(g.drop_first())
    }
}

/// `bincode`'s encoding of a list of lists of `usize`: the number of lists,
/// then each list.
pub open spec fn bincode_usize_lists(g: Seq<Seq<usize>>) -> Seq<u8> {
    le_bytes(g.len() as u64) + rows_bytes(g)
}

/// Every length in `g` fits in a `usize`, as in any list of vectors.
pub open spec fn lists_fit(g: Seq<Seq<usize>>) -> bool {
    g.len() <= usize::MAX && forall|i: int| 0 <= i < g.len() ==> (#[trigger] g[i]).len()
        <= usize::MAX
}

/// Calls `bincode::serialize` on a list of lists of `usize`. It succeeds
/// (bincode's default size limit is unbounded, a `Vec` always reports its
/// length, and writing into a `Vec<u8>` cannot fail), and the bytes are the
/// fixed-width little-endian encoding that bincode documents for its
/// `serialize` function.
#[verifier::external_body]
fn bincode_serialize_usize_lists(data: &Vec<Vec<usize>>) -> (r: Result<Vec<u8>, Box<bincode::ErrorKind>>)
    ensures
        r is Ok,
        r matches Ok(bytes) ==> bytes@ == bincode_usize_lists(data.deep_view()),
{
    bincode::serialize(data)
}

/// Calls `bincode::deserialize` for a list of lists of `usize`. It succeeds
/// exactly when `bytes` starts with the encoding of some such list (trailing
/// bytes are allowed), and then returns the list so encoded.
#[verifier::external_body]
fn bincode_deserialize_usize_lists(bytes: &[u8]) -> (r: Result<Vec<Vec<usize>>, Box<bincode::ErrorKind>>)
    ensures
        r.is_ok() == (exists|g: Seq<Seq<usize>>, rest: Seq<u8>|
            lists_fit(g) && bytes@ == #[trigger] bincode_usize_lists(g).add(rest)),
        r matches Ok(d) ==> exists|rest: Seq<u8>| bytes@ == bincode_usize_lists(d.deep_view()) + rest,
{
    bincode::deserialize(bytes)
}

/// Calls `bincode::serialize` on a list of `u64`. It succeeds, for the same
/// reasons as on a list of lists, and the bytes are bincode's documented
/// fixed-width little-endian encoding.
#[verifier::external_body]
fn bincode_serialize_u64_list(data: &Vec<u64>) -> (r: Result<Vec<u8>, Box<bincode::ErrorKind>>)
    ensures
        r is Ok,
        r matches Ok(bytes) ==> bytes@ == bincode_u64_list(data@),
{
    bincode::serialize(data)
}

/// Calls `bincode::deserialize` for a list of `u64`. It succeeds exactly when
/// `bytes` starts with the encoding of some such list, and then returns it.
#[verifier::external_body]
fn bincode_deserialize_u64_list(bytes: &[u8]) -> (r: Result<Vec<u64>, Box<bincode::ErrorKind>>)
    ensures
        r.is_ok() == (exists|s: Seq<u64>, rest: Seq<u8>|
            s.len() <= usize::MAX && bytes@ == #[trigger] bincode_u64_list(s).add(rest)),
        r matches Ok(d) ==> exists|rest: Seq<u8>| bytes@ == bincode_u64_list(d@) + rest,
{
    bincode::deserialize(bytes)
}

/// Why a checkpoint could not be encoded or decoded.
#[derive(Clone, Copy, Debug, PartialEq, Eq, Structural)]
pub enum CodecError {
    /// The encoder reported an error (bincode reports none on the lists
    /// encoded here).
    Encode,
    /// The bytes do not start with an encoding of the expected type.
    Decode,
}

/// Eight little-endian bytes determine the word.
pub proof fn lemma_le_bytes_injective(x: u64, y: u64)
    requires
        le_bytes(x) == le_bytes(y),
    ensures
        x == y,
{
    let a = le_bytes(x);
    let b = le_bytes(y);
    assert(a[0] == b[0] && a[1] == b[1] && a[2] == b[2] && a[3] == b[3]);
    assert(a[4] == b[4] && a[5] == b[5] && a[6] == b[6] && a[7] == b[7]);
    assert(x == y) by (bit_vector)
        requires
            x as u8 == y as u8,
            (x >> 8u64) as u8 == (y >> 8u64) as u8,
            (x >> 16u64) as u8 == (y >> 16u64) as u8,
            (x >> 24u64) as u8 == (y >> 24u64) as u8,
            (x >> 32u64) as u8 == (y >> 32u64) as u8,
            (x >> 40u64) as u8 == (y >> 40u64) as u8,
            (x >> 48u64) as u8 == (y >> 48u64) as u8,
            (x >> 56u64) as u8 == (y >> 56u64) as u8,
    ;
}

/// Splitting equal byte strings after equal-length heads.
proof fn lemma_split_equal(a1: Seq<u8>, a2: Seq<u8>, b1: Seq<u8>, b2: Seq<u8>)
    requires
        a1 + a2 == b1 + b2,
        a1.len() == b1.len(),
    ensures
        a1 == b1,
        a2 == b2,
{
    assert(a1 =~= (a1 + a2).subrange(0, a1.len() as int));
    assert(b1 =~= (b1 + b2).subrange(0, b1.len() as int));
    assert(a2 =~= (a1 + a2).subrange(a1.len() as int, (a1 + a2).len() as int));
    assert(b2 =~= (b1 + b2).subrange(b1.len() as int, (b1 + b2).len() as int));
}

/// Equal-length word lists with a common encoded prefix are equal.
pub proof fn lemma_words_prefix_unique(a: Seq<u64>, b: Seq<u64>, x: Seq<u8>, y: Seq<u8>)
    requires
        a.len() == b.len(),
        words_bytes(a) + x == words_bytes(b) + y,
    ensures
        a == b,
        x == y,
    decreases a.len(),
{
    if a.len() == 0 {
        assert(words_bytes(a) + x =~= x);
        assert(words_bytes(b) + y =~= y);
        assert(a =~= b);
    } else {
        assert(words_bytes(a) + x =~= le_bytes(a[0]) + (words_bytes(a.drop_first()) + x));
        assert(words_bytes(b) + y =~= le_bytes(b[0]) + (words_bytes(b.drop_first()) + y));
        lemma_split_equal(le_bytes(a[0]), words_bytes(a.drop_first()) + x, le_bytes(b[0]),
            words_bytes(b.drop_first()) + y);
        lemma_le_bytes_injective(a[0], b[0]);
        lemma_words_prefix_unique(a.drop_first(), b.drop_first(), x, y);
        assert(a =~= seq![a[0]] + a.drop_first());
        assert(b =~= seq![b[0]] + b.drop_first());
    }
}

/// A `u64` list encoding followed by anything determines the list and the rest.
pub proof fn lemma_u64_list_prefix_unique(a: Seq<u64>, b: Seq<u64>, x: Seq<u8>, y: Seq<u8>)
    requires
        a.len() <= u64::MAX,
        b.len() <= u64::MAX,
        bincode_u64_list(a) + x == bincode_u64_list(b) + y,
    ensures
        a == b,
        x == y,
{
    assert(bincode_u64_list(a) + x =~= le_bytes(a.len() as u64) + (words_bytes(a) + x));
    assert(bincode_u64_list(b) + y =~= le_bytes(b.len() as u64) + (words_bytes(b) + y));
    lemma_split_equal(le_bytes(a.len() as u64), words_bytes(a) + x, le_bytes(b.len() as u64),
        words_bytes(b) + y);
    lemma_le_bytes_injective(a.len() as u64, b.len() as u64);
    lemma_words_prefix_unique(a, b, x, y);
}

/// Widening to `u64` loses nothing.
pub proof fn lemma_widen_injective(a: Seq<usize>, b: Seq<usize>)
    requires
        widen(a) == widen(b),
    ensures
        a == b,
{
    assert(widen(a).len() == a.len());
    assert(widen(b).len() == b.len());
    assert forall|i: int| 0 <= i < a.len() implies a[i] == b[i] by {
        assert(widen(a)[i] == widen(b)[i]);
        assert(widen(a)[i] == a[i] as u64);
        assert(widen(b)[i] == b[i] as u64);
        assert(a[i] as u64 == a[i]);
        assert(b[i] as u64 == b[i]);
    }
    assert(a =~= b);
}

/// Equal-length list-of-lists bodies with a common encoded prefix are equal.
pub proof fn lemma_rows_prefix_unique(a: Seq<Seq<usize>>, b: Seq<Seq<usize>>, x: Seq<u8>, y: Seq<u8>)
    requires
        a.len() == b.len(),
        lists_fit(a),
        lists_fit(b),
        rows_bytes(a) + x == rows_bytes(b) + y,
    ensures
        a == b,
        x == y,
    decreases a.len(),
{
    if a.len() == 0 {
        assert(rows_bytes(a) + x =~= x);
        assert(rows_bytes(b) + y =~= y);
        assert(a =~= b);
    } else {
        assert(rows_bytes(a) + x =~= bincode_usize_list(a[0]) + (rows_bytes(a.drop_first()) + x));
        assert(rows_bytes(b) + y =~= bincode_usize_list(b[0]) + (rows_bytes(b.drop_first()) + y));
        assert(a[0].len() <= usize::MAX);
        assert(b[0].len() <= usize::MAX);
        lemma_u64_list_prefix_unique(widen(a[0]), widen(b[0]), rows_bytes(a.drop_first()) + x,
            rows_bytes(b.drop_first()) + y);
        lemma_widen_injective(a[0], b[0]);
        assert forall|i: int| 0 <= i < a.drop_first().len() implies (#[trigger] a.drop_first()[i]).len()
            <= usize::MAX by {
            assert(a.drop_first()[i] == a[i + 1]);
        }
        assert forall|i: int| 0 <= i < b.drop_first().len() implies (#[trigger] b.drop_first()[i]).len()
            <= usize::MAX by {
            assert(b.drop_first()[i] == b[i + 1]);
        }
        lemma_rows_prefix_unique(a.drop_first(), b.drop_first(), x, y);
        assert(a =~= seq![a[0]] + a.drop_first());
        assert(b =~= seq![b[0]] + b.drop_first());
    }
}

/// A list-of-lists encoding followed by anything determines the lists: what
/// decoding reads back is what encoding wrote.
pub proof fn lemma_usize_lists_prefix_unique(
    a: Seq<Seq<usize>>,
    b: Seq<Seq<usize>>,
    x: Seq<u8>,
    y: Seq<u8>,
)
    requires
        lists_fit(a),
        lists_fit(b),
        bincode_usize_lists(a) + x == bincode_usize_lists(b) + y,
    ensures
        a == b,
        x == y,
{
    assert(bincode_usize_lists(a) + x =~= le_bytes(a.len() as u64) + (rows_bytes(a) + x));
    assert(bincode_usize_lists(b) + y =~= le_bytes(b.len() as u64) + (rows_bytes(b) + y));
    lemma_split_equal(le_bytes(a.len() as u64), rows_bytes(a) + x, le_bytes(b.len() as u64),
        rows_bytes(b) + y);
    lemma_le_bytes_injective(a.len() as u64, b.len() as u64);
    lemma_rows_prefix_unique(a, b, x, y);
}

/// Encodes a neighbour table in the checkpoint format; this always succeeds.
pub fn encode_neighbors(data: &Vec<Vec<usize>>) -> (r: Result<Vec<u8>, CodecError>)
    ensures
        r is Ok,
        r matches Ok(bytes) ==> bytes@ == bincode_usize_lists(data.deep_view()),
{
    match bincode_serialize_usize_lists(data) {
        Ok(bytes) => Ok(bytes),
        Err(_) => Err(CodecError::Encode),
    }
}

/// Decodes a neighbour table from checkpoint bytes: it succeeds exactly when
/// `bytes` starts with an encoded table, and then gives back that table.
pub fn decode_neighbors(bytes: &[u8]) -> (r: Result<Vec<Vec<usize>>, CodecError>)
    ensures
        r.is_ok() == (exists|g: Seq<Seq<usize>>, rest: Seq<u8>|
            lists_fit(g) && bytes@ == #[trigger] bincode_usize_lists(g).add(rest)),
        forall|g: Seq<Seq<usize>>, rest: Seq<u8>|
            lists_fit(g) && bytes@ == #[trigger] bincode_usize_lists(g).add(rest) ==> (r matches Ok(
                d,
            ) && d.deep_view() == g),
        r matches Err(e) ==> e == CodecError::Decode,
{
    let r = bincode_deserialize_usize_lists(bytes);
    match r {
        Ok(d) => {
            proof {
                let rest = choose|rest: Seq<u8>| bytes@ == bincode_usize_lists(d.deep_view()) + rest;
                assert(lists_fit(d.deep_view())) by {
                    assert(d.deep_view().len() == d.len());
                    assert forall|i: int| 0 <= i < d.deep_view().len() implies (
                    #[trigger] d.deep_view()[i]).len() <= usize::MAX by {
                        assert(d.deep_view()[i] == d@[i].deep_view());
                        assert(d@[i].deep_view().len() == d@[i].len());
                    }
                }
                assert forall|g: Seq<Seq<usize>>, rest2: Seq<u8>|
                    lists_fit(g) && bytes@ == #[trigger] bincode_usize_lists(g).add(
                        rest2,
                    ) implies d.deep_view() == g by {
                    lemma_usize_lists_prefix_unique(d.deep_view(), g, rest, rest2);
                }
            }
            Ok(d)
        },
        Err(_) => Err(CodecError::Decode),
    }
}

/// Encodes a list of `u64` in the checkpoint format; this always succeeds.
pub fn encode_u64_list(data: &Vec<u64>) -> (r: Result<Vec<u8>, CodecError>)
    ensures
        r is Ok,
        r matches Ok(bytes) ==> bytes@ == bincode_u64_list(data@),
{
    match bincode_serialize_u64_list(data) {
        Ok(bytes) => Ok(bytes),
        Err(_) => Err(CodecError::Encode),
    }
}

/// Decodes a list of `u64` from checkpoint bytes: it succeeds exactly when
/// `bytes` starts with an encoded list, and then gives back that list.
pub fn decode_u64_list(bytes: &[u8]) -> (r: Result<Vec<u64>, CodecError>)
    ensures
        r.is_ok() == (exists|s: Seq<u64>, rest: Seq<u8>|
            s.len() <= usize::MAX && bytes@ == #[trigger] bincode_u64_list(s).add(rest)),
        forall|s: Seq<u64>, rest: Seq<u8>|
            s.len() <= usize::MAX && bytes@ == #[trigger] bincode_u64_list(s).add(rest) ==> (
            r matches Ok(d) && d@ == s),
        r matches Err(e) ==> e == CodecError::Decode,
{
    let r = bincode_deserialize_u64_list(bytes);
    match r {
        Ok(d) => {
            proof {
                let rest = choose|rest: Seq<u8>| bytes@ == bincode_u64_list(d@) + rest;
                assert(d@.len() == d.len());
                assert forall|s: Seq<u64>, rest2: Seq<u8>|
                    s.len() <= usize::MAX && bytes@ == #[trigger] bincode_u64_list(s).add(
                        rest2,
                    ) implies d@ == s by {
                    lemma_u64_list_prefix_unique(d@, s, rest, rest2);
                }
            }
            Ok(d)
        },
        Err(_) => Err(CodecError::Decode),
    }
}

} // verus!
