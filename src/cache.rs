//! The chunk cache: file naming, and the record format of a chunk on disk, in bincode
//! or RON as configured.
use vstd::prelude::*;
use crate::voxel::{IVec3, Kind};
use crate::chunk::{ChunkKind, ChunkStorage, BUFFER_SIZE};

verus! {

/// Directory that holds one cache file per chunk coordinate.
pub const CACHE_DIR: &'static str = "cache/chunks/";

/// Extension of a cache file, with its leading dot.
pub const CACHE_EXT: &'static str = ".bin";

pub open spec fn digit_char(d: nat) -> char {
    if d == 0 {
        '0'
    } else if d == 1 {
        '1'
    } else if d == 2 {
        '2'
    } else if d == 3 {
        '3'
    } else if d == 4 {
        '4'
    } else if d == 5 {
        '5'
    } else if d == 6 {
        '6'
    } else if d == 7 {
        '7'
    } else if d == 8 {
        '8'
    } else {
        '9'
    }
}

/// Decimal digits of `n`, most significant first, without leading zeros.
pub open spec fn digits(n: nat) -> Seq<char>
    decreases n,
{
    if n < 10 {
        seq![digit_char(n)]
    } else {
        digits(n / 10).push(digit_char(n % 10))
    }
}

/// Decimal text of `i`, with a leading `-` when negative.
pub open spec fn decimal(i: int) -> Seq<char> {
    if i < 0 {
        seq!['-'] + digits((-i) as nat)
    } else {
        digits(i as nat)
    }
}

/// File name stem of a chunk coordinate: its three components joined by `_`.
pub open spec fn coord_name(c: IVec3) -> Seq<char> {
    decimal(c.x as int) + seq!['_'] + decimal(c.y as int) + seq!['_'] + decimal(c.z as int)
}

proof fn lemma_digit_char(d: nat, e: nat)
    requires
        d < 10,
        e < 10,
    ensures
        digit_char(d) != '_',
        digit_char(d) != '-',
        digit_char(d) == digit_char(e) ==> d == e,
{
}

proof fn lemma_digits_shape(n: nat)
    ensures
        digits(n).len() >= 1,
        n >= 10 ==> digits(n).len() >= 2,
        forall|i: int| 0 <= i < digits(n).len() ==> #[trigger] digits(n)[i] != '_' && digits(n)[i] != '-',
    decreases n,
{
    if n < 10 {
        lemma_digit_char(n, n);
    } else {
        lemma_digits_shape(n / 10);
        lemma_digit_char(n % 10, n % 10);
        assert forall|i: int| 0 <= i < digits(n).len() implies #[trigger] digits(n)[i] != '_' && digits(n)[i] != '-' by {
            if i < digits(n).len() - 1 {
                assert(digits(n)[i] == digits(n / 10)[i]);
            }
        }
    }
}

proof fn lemma_digits_injective(a: nat, b: nat)
    requires
        digits(a) == digits(b),
    ensures
        a == b,
    decreases a,
{
    lemma_digits_shape(a);
    lemma_digits_shape(b);
    if a < 10 && b < 10 {
        assert(digits(a)[0] == digits(b)[0]);
        assert(digits(a)[0] == digit_char(a));
        assert(digits(b)[0] == digit_char(b));
        lemma_digit_char(a, b);
        assert(a == b);
    } else if a >= 10 && b >= 10 {
        let da = digits(a);
        let db = digits(b);
        assert(da == digits(a / 10).push(digit_char(a % 10)));
        assert(db == digits(b / 10).push(digit_char(b % 10)));
        assert(da.last() == db.last());
        lemma_digit_char(a % 10, b % 10);
        assert(a % 10 == b % 10);
        assert(da.drop_last() =~= digits(a / 10));
        assert(db.drop_last() =~= digits(b / 10));
        lemma_digits_injective(a / 10, b / 10);
        assert(a == (a / 10) * 10 + a % 10);
        assert(b == (b / 10) * 10 + b % 10);
        assert(a == b);
    } else {
        assert(digits(a).len() != digits(b).len());
    }
}

proof fn lemma_decimal_shape(i: int)
    ensures
        forall|k: int| 0 <= k < decimal(i).len() ==> #[trigger] decimal(i)[k] != '_',
        decimal(i).len() >= 1,
        (decimal(i)[0] == '-') == (i < 0),
{
    if i < 0 {
        lemma_digits_shape((-i) as nat);
        assert forall|k: int| 0 <= k < decimal(i).len() implies #[trigger] decimal(i)[k] != '_' by {
            if k > 0 {
                assert(decimal(i)[k] == digits((-i) as nat)[k - 1]);
            }
        }
    } else {
        lemma_digits_shape(i as nat);
    }
}

proof fn lemma_decimal_injective(a: int, b: int)
    requires
        decimal(a) == decimal(b),
    ensures
        a == b,
{
    lemma_decimal_shape(a);
    lemma_decimal_shape(b);
    if a < 0 {
        assert(decimal(a).drop_first() =~= digits((-a) as nat));
        assert(decimal(b).drop_first() =~= digits((-b) as nat));
        lemma_digits_injective((-a) as nat, (-b) as nat);
    } else {
        lemma_digits_injective(a as nat, b as nat);
    }
}

/// A text without `_`, then `_`, then the rest splits in only one way.
proof fn lemma_split_at_separator(a: Seq<char>, r: Seq<char>, a2: Seq<char>, r2: Seq<char>)
    requires
        a + seq!['_'] + r == a2 + seq!['_'] + r2,
        forall|k: int| 0 <= k < a.len() ==> #[trigger] a[k] != '_',
        forall|k: int| 0 <= k < a2.len() ==> #[trigger] a2[k] != '_',
    ensures
        a == a2,
        r == r2,
{
    let s = a + seq!['_'] + r;
    let s2 = a2 + seq!['_'] + r2;
    if a.len() < a2.len() {
        assert(s[a.len() as int] == '_');
        assert(s2[a.len() as int] == a2[a.len() as int]);
    } else if a2.len() < a.len() {
        assert(s2[a2.len() as int] == '_');
        assert(s[a2.len() as int] == a[a2.len() as int]);
    }
    assert(a =~= s.subrange(0, a.len() as int));
    assert(a2 =~= s2.subrange(0, a2.len() as int));
    assert(r =~= s.subrange(a.len() as int + 1, s.len() as int));
    assert(r2 =~= s2.subrange(a2.len() as int + 1, s2.len() as int));
}

/// Distinct chunk coordinates have distinct cache file names.
pub proof fn lemma_coord_name_injective(a: IVec3, b: IVec3)
    requires
        coord_name(a) == coord_name(b),
    ensures
        a == b,
{
    lemma_decimal_shape(a.x as int);
    lemma_decimal_shape(b.x as int);
    lemma_decimal_shape(a.y as int);
    lemma_decimal_shape(b.y as int);
    let ra = decimal(a.y as int) + seq!['_'] + decimal(a.z as int);
    let rb = decimal(b.y as int) + seq!['_'] + decimal(b.z as int);
    assert(coord_name(a) =~= decimal(a.x as int) + seq!['_'] + ra);
    assert(coord_name(b) =~= decimal(b.x as int) + seq!['_'] + rb);
    lemma_split_at_separator(decimal(a.x as int), ra, decimal(b.x as int), rb);
    lemma_split_at_separator(decimal(a.y as int), decimal(a.z as int), decimal(b.y as int), decimal(b.z as int));
    lemma_decimal_injective(a.x as int, b.x as int);
    lemma_decimal_injective(a.y as int, b.y as int);
    lemma_decimal_injective(a.z as int, b.z as int);
}

/// Distinct chunk coordinates have distinct cache file paths.
pub proof fn lemma_local_path_injective(a: IVec3, b: IVec3)
    requires
        CACHE_DIR@ + coord_name(a) + CACHE_EXT@ == CACHE_DIR@ + coord_name(b) + CACHE_EXT@,
    ensures
        a == b,
{
    let pa = CACHE_DIR@ + coord_name(a) + CACHE_EXT@;
    let pb = CACHE_DIR@ + coord_name(b) + CACHE_EXT@;
    let lo = CACHE_DIR@.len() as int;
    assert(coord_name(a) =~= pa.subrange(lo, pa.len() - CACHE_EXT@.len()));
    assert(coord_name(b) =~= pb.subrange(lo, pb.len() - CACHE_EXT@.len()));
    lemma_coord_name_injective(a, b);
}

fn digit(d: u64) -> (r: &'static str)
    requires
        d < 10,
    ensures
        r@ == seq![digit_char(d as nat)],
{
    if d == 0 {
        proof {
            reveal_strlit("0");
        }
        "0"
    } else if d == 1 {
        proof {
            reveal_strlit("1");
        }
        "1"
    } else if d == 2 {
        proof {
            reveal_strlit("2");
        }
        "2"
    } else if d == 3 {
        proof {
            reveal_strlit("3");
        }
        "3"
    } else if d == 4 {
        proof {
            reveal_strlit("4");
        }
        "4"
    } else if d == 5 {
        proof {
            reveal_strlit("5");
        }
        "5"
    } else if d == 6 {
        proof {
            reveal_strlit("6");
        }
        "6"
    } else if d == 7 {
        proof {
            reveal_strlit("7");
        }
        "7"
    } else if d == 8 {
        proof {
            reveal_strlit("8");
        }
        "8"
    } else {
        proof {
            reveal_strlit("9");
        }
        "9"
    }
}

fn push_digits(out: &mut String, n: u64)
    ensures
        final(out)@ == old(out)@ + digits(n as nat),
    decreases n,
{
    if n >= 10 {
        push_digits(out, n / 10);
    }
    out.append(digit(n % 10));
    assert(out@ =~= old(out)@ + digits(n as nat));
}

fn push_decimal(out: &mut String, i: i32)
    ensures
        final(out)@ == old(out)@ + decimal(i as int),
{
    if i < 0 {
        proof {
            reveal_strlit("-");
        }
        out.append("-");
        push_digits(out, (-(i as i64)) as u64);
        assert(out@ =~= old(out)@ + decimal(i as int));
    } else {
        push_digits(out, i as u64);
    }
}

/// The coordinate's components in decimal, sign kept, joined by `_`.
pub fn format_local(local: IVec3) -> (r: String)
    ensures
        r@ == coord_name(local),
{
    proof {
        reveal_strlit("");
        reveal_strlit("_");
    }
    let mut out = String::from_str("");
    push_decimal(&mut out, local.x);
    out.append("_");
    push_decimal(&mut out, local.y);
    out.append("_");
    push_decimal(&mut out, local.z);
    assert(out@ =~= coord_name(local));
    out
}

/// Path of the cache file of a chunk coordinate.
pub fn local_path(local: IVec3) -> (r: String)
    ensures
        r@ == CACHE_DIR@ + coord_name(local) + CACHE_EXT@,
{
    let name = format_local(local);
    let mut path = String::from_str(CACHE_DIR);
    path.append(name.as_str());
    path.append(CACHE_EXT);
    path
}

/// Serialization of a cache record, chosen once by configuration.
#[derive(Clone, Copy, Debug, PartialEq, Eq, Structural)]
pub enum Format {
    /// bincode's compact binary layout.
    Binary,
    /// RON text.
    Text,
}

/// The `n` low bytes of `v`, least significant first.
pub open spec fn le_bytes(v: int, n: nat) -> Seq<u8>
    decreases n,
{
    if n == 0 {
        Seq::empty()
    } else {
        seq![(v % 256) as u8] + le_bytes(v / 256, (n - 1) as nat)
    }
}

/// bincode's fixed-width little-endian layout of the tuple `(x, y, z, kinds)`: each
/// coordinate in four bytes (two's complement), the number of kinds in eight bytes, then
/// each kind in two bytes.
pub open spec fn bincode_record(x: i32, y: i32, z: i32, kinds: Seq<u16>) -> Seq<u8> {
    le_bytes(x as int, 4) + le_bytes(y as int, 4) + le_bytes(z as int, 4) + le_bytes(
        kinds.len() as int,
        8,
    ) + Seq::new(
        2 * kinds.len(),
        |i: int|
            if i % 2 == 0 {
                (kinds[i / 2] % 256) as u8
            } else {
                (kinds[i / 2] / 256) as u8
            },
    )
}

/// The kinds in decimal, separated by `,`.
pub open spec fn joined(kinds: Seq<u16>) -> Seq<char>
    decreases kinds.len(),
{
    if kinds.len() == 0 {
        Seq::empty()
    } else if kinds.len() == 1 {
        decimal(kinds[0] as int)
    } else {
        joined(kinds.drop_last()) + seq![','] + decimal(kinds.last() as int)
    }
}

/// RON's compact text of the tuple `(x, y, z, kinds)`: `(x,y,z,[k0,k1,...])`.
pub open spec fn ron_text(x: i32, y: i32, z: i32, kinds: Seq<u16>) -> Seq<char> {
    seq!['('] + decimal(x as int) + seq![','] + decimal(y as int) + seq![','] + decimal(z as int)
        + seq![',', '['] + joined(kinds) + seq![']', ')']
}

/// The bytes of `ron_text`, which is ASCII.
pub open spec fn ron_record(x: i32, y: i32, z: i32, kinds: Seq<u16>) -> Seq<u8> {
    ron_text(x, y, z, kinds).map_values(|c: char| c as u8)
}

/// Relies on `bincode::serialize`: with its default options (no size limit, fixed-width
/// little-endian integers, a `u64` length before a sequence) it succeeds on this tuple and
/// lays it out as `bincode_record` says.
#[verifier::external_body]
fn bincode_encode(x: i32, y: i32, z: i32, kinds: &Vec<u16>) -> (r: Option<Vec<u8>>)
    ensures
        r is Some,
        r->0@ == bincode_record(x, y, z, kinds@),
{
    bincode::serialize(&(x, y, z, kinds)).ok()
}

/// Relies on `bincode::deserialize`: bytes that `bincode::serialize` produced for a tuple
/// decode to that tuple.
#[verifier::external_body]
fn bincode_decode(bytes: &[u8]) -> (r: Option<(i32, i32, i32, Vec<u16>)>)
    ensures
        forall|x: i32, y: i32, z: i32, k: Seq<u16>|
            bytes@ == #[trigger] bincode_record(x, y, z, k) ==> r is Some && (r->0).0 == x
                && (r->0).1 == y && (r->0).2 == z && (r->0).3@ == k,
{
    bincode::deserialize::<(i32, i32, i32, Vec<u16>)>(bytes).ok()
}

/// Relies on `ron::to_string`: without pretty printing it writes a tuple as `(`, its members
/// separated by `,`, then `)`; a sequence likewise between `[` and `]`; integers in decimal.
/// It writes into a `String`, and integers nested two deep stay far below its recursion
/// limit, so it succeeds on this tuple.
#[verifier::external_body]
fn ron_encode(x: i32, y: i32, z: i32, kinds: &Vec<u16>) -> (r: Option<Vec<u8>>)
    ensures
        r is Some,
        r->0@ == ron_record(x, y, z, kinds@),
{
    ron::to_string(&(x, y, z, kinds)).ok().map(|s| s.into_bytes())
}

/// Relies on `ron::de::from_bytes`: the text that `ron::to_string` produced for a tuple
/// decodes to that tuple.
#[verifier::external_body]
fn ron_decode(bytes: &[u8]) -> (r: Option<(i32, i32, i32, Vec<u16>)>)
    ensures
        forall|x: i32, y: i32, z: i32, k: Seq<u16>|
            bytes@ == #[trigger] ron_record(x, y, z, k) ==> r is Some && (r->0).0 == x && (r->0).1
                == y && (r->0).2 == z && (r->0).3@ == k,
{
    ron::de::from_bytes::<(i32, i32, i32, Vec<u16>)>(bytes).ok()
}

/// The raw values of a voxel layer.
pub open spec fn raw_kinds(kinds: Seq<Kind>) -> Seq<u16> {
    kinds.map_values(|k: Kind| k.0)
}

/// Bytes of the cache record of chunk `c` with voxel layer `kinds`.
pub open spec fn record_bytes(format: Format, c: IVec3, kinds: Seq<Kind>) -> Seq<u8> {
    match format {
        Format::Binary => bincode_record(c.x, c.y, c.z, raw_kinds(kinds)),
        Format::Text => ron_record(c.x, c.y, c.z, raw_kinds(kinds)),
    }
}

fn to_raw(kind: &ChunkKind) -> (r: Vec<u16>)
    requires
        kind.wf(),
    ensures
        r@ == raw_kinds(kind@),
{
    let src = kind.as_slice();
    let mut r: Vec<u16> = Vec::new();
    let mut i: usize = 0;
    while i < src.len()
        invariant
            i <= src@.len(),
            src@ == kind@,
            r@ =~= raw_kinds(src@.subrange(0, i as int)),
        decreases src@.len() - i,
    {
        r.push(src[i].0);
        i += 1;
        assert(r@ =~= raw_kinds(src@.subrange(0, i as int)));
    }
    assert(src@.subrange(0, src@.len() as int) =~= src@);
    r
}

fn from_raw(raw: &Vec<u16>) -> (r: Vec<Kind>)
    ensures
        r@.len() == raw@.len(),
        forall|i: int| 0 <= i < raw@.len() ==> #[trigger] r@[i] == Kind(raw@[i]),
{
    let mut r: Vec<Kind> = Vec::new();
    let mut i: usize = 0;
    while i < raw.len()
        invariant
            i <= raw@.len(),
            r@.len() == i,
            forall|j: int| 0 <= j < i ==> #[trigger] r@[j] == Kind(raw@[j]),
        decreases raw@.len() - i,
    {
        r.push(Kind(raw[i]));
        i += 1;
    }
    r
}

/// Encodes the cache record of chunk `local` with voxel layer `kind`.
pub fn encode_record(format: Format, local: IVec3, kind: &ChunkKind) -> (r: Vec<u8>)
    requires
        kind.wf(),
    ensures
        r@ == record_bytes(format, local, kind@),
{
    let raw = to_raw(kind);
    let encoded = match format {
        Format::Binary => bincode_encode(local.x, local.y, local.z, &raw),
        Format::Text => ron_encode(local.x, local.y, local.z, &raw),
    };
    encoded.unwrap()
}

/// Decodes a cache record into its chunk coordinate and voxel layer. Bytes produced by
/// `encode_record` for a coordinate and a full layer always decode to exactly those;
/// `None` means the record is malformed.
pub fn decode_record(format: Format, bytes: &[u8]) -> (r: Option<(IVec3, ChunkKind)>)
    ensures
        r is Some ==> (r->0).1.wf(),
        forall|c: IVec3, k: Seq<Kind>|
            k.len() == BUFFER_SIZE && bytes@ == #[trigger] record_bytes(format, c, k) ==> r is Some
                && (r->0).0 == c && (r->0).1@ == k,
{
    let decoded = match format {
        Format::Binary => bincode_decode(bytes),
        Format::Text => ron_decode(bytes),
    };
    match decoded {
        Some((x, y, z, raw)) => {
            if raw.len() != BUFFER_SIZE {
                proof {
                    assert forall|c: IVec3, k: Seq<Kind>|
                        k.len() == BUFFER_SIZE && bytes@ == #[trigger] record_bytes(format, c, k) implies false by {
                        assert(raw_kinds(k).len() == BUFFER_SIZE);
                    }
                }
                return None;
            }
            let kinds = from_raw(&raw);
            proof {
                assert forall|c: IVec3, k: Seq<Kind>|
                    k.len() == BUFFER_SIZE && bytes@ == #[trigger] record_bytes(format, c, k) implies kinds@ == k by {
                    assert(raw@ == raw_kinds(k));
                    assert(kinds@ =~= k);
                }
            }
            Some((IVec3 { x, y, z }, ChunkStorage::from_vec(kinds)))
        },
        None => None,
    }
}

} // verus!
