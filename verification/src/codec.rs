use vstd::prelude::*;

verus! {

use vstd::utf8::valid_utf8;
use vstd::utf8::decode_utf8;
use vstd::utf8::encode_utf8;
use vstd::string::StringSliceAdditionalSpecFns;

/// Outcome of parsing one wire element starting at some position of a buffer:
/// the element with the position just past it, too few bytes to tell, or
/// bytes that cannot begin such an element.
pub enum ParseStep<T> {
    Found(T, int),
    Short,
    Bad,
}

/// Executable counterpart of `ParseStep`, with a `usize` end position.
pub enum DecStep<T> {
    Found(T, usize),
    Short,
    Bad,
}

pub const MAX_LEN: usize = 0xffff_ffff;

pub open spec fn be16(b: Seq<u8>, i: int) -> int {
    b[i] * 256 + b[i + 1]
}

pub open spec fn be32(b: Seq<u8>, i: int) -> int {
    b[i] * 16777216 + b[i + 1] * 65536 + b[i + 2] * 256 + b[i + 3]
}

/// Length and data start of a string element header: fixstr, str8, str16 or str32.
pub open spec fn spec_parse_str_header(b: Seq<u8>, i: int) -> ParseStep<int> {
    if i < 0 || i >= b.len() {
        ParseStep::Short
    } else if 0xa0 <= b[i] && b[i] <= 0xbf {
        ParseStep::Found((b[i] - 0xa0) as int, i + 1)
    } else if b[i] == 0xd9 {
        if i + 2 <= b.len() {
            ParseStep::Found(b[i + 1] as int, i + 2)
        } else {
            ParseStep::Short
        }
    } else if b[i] == 0xda {
        if i + 3 <= b.len() {
            ParseStep::Found(be16(b, i + 1), i + 3)
        } else {
            ParseStep::Short
        }
    } else if b[i] == 0xdb {
        if i + 5 <= b.len() {
            ParseStep::Found(be32(b, i + 1), i + 5)
        } else {
            ParseStep::Short
        }
    } else {
        ParseStep::Bad
    }
}

/// Length and data start of a binary element header: bin8, bin16 or bin32.
pub open spec fn spec_parse_bin_header(b: Seq<u8>, i: int) -> ParseStep<int> {
    if i < 0 || i >= b.len() {
        ParseStep::Short
    } else if b[i] == 0xc4 {
        if i + 2 <= b.len() {
            ParseStep::Found(b[i + 1] as int, i + 2)
        } else {
            ParseStep::Short
        }
    } else if b[i] == 0xc5 {
        if i + 3 <= b.len() {
            ParseStep::Found(be16(b, i + 1), i + 3)
        } else {
            ParseStep::Short
        }
    } else if b[i] == 0xc6 {
        if i + 5 <= b.len() {
            ParseStep::Found(be32(b, i + 1), i + 5)
        } else {
            ParseStep::Short
        }
    } else {
        ParseStep::Bad
    }
}

/// Entry count of a map element header: fixmap, map16 or map32.
pub open spec fn spec_parse_map_header(b: Seq<u8>, i: int) -> ParseStep<int> {
    if i < 0 || i >= b.len() {
        ParseStep::Short
    } else if 0x80 <= b[i] && b[i] <= 0x8f {
        ParseStep::Found((b[i] - 0x80) as int, i + 1)
    } else if b[i] == 0xde {
        if i + 3 <= b.len() {
            ParseStep::Found(be16(b, i + 1), i + 3)
        } else {
            ParseStep::Short
        }
    } else if b[i] == 0xdf {
        if i + 5 <= b.len() {
            ParseStep::Found(be32(b, i + 1), i + 5)
        } else {
            ParseStep::Short
        }
    } else {
        ParseStep::Bad
    }
}

/// A complete string element: header, then that many bytes of UTF-8 text.
pub open spec fn spec_parse_str(b: Seq<u8>, i: int) -> ParseStep<Seq<char>> {
    match spec_parse_str_header(b, i) {
        ParseStep::Found(l, ds) => {
            if ds + l > b.len() {
                ParseStep::Short
            } else if valid_utf8(b.subrange(ds, ds + l)) {
                ParseStep::Found(decode_utf8(b.subrange(ds, ds + l)), ds + l)
            } else {
                ParseStep::Bad
            }
        },
        ParseStep::Short => ParseStep::Short,
        ParseStep::Bad => ParseStep::Bad,
    }
}

/// A complete binary element: header, then that many raw bytes.
pub open spec fn spec_parse_bin(b: Seq<u8>, i: int) -> ParseStep<Seq<u8>> {
    match spec_parse_bin_header(b, i) {
        ParseStep::Found(l, ds) => {
            if ds + l > b.len() {
                ParseStep::Short
            } else {
                ParseStep::Found(b.subrange(ds, ds + l), ds + l)
            }
        },
        ParseStep::Short => ParseStep::Short,
        ParseStep::Bad => ParseStep::Bad,
    }
}

/// Canonical header for a string of `l` bytes: the smallest form that holds `l`.
pub open spec fn spec_enc_str_header(l: nat) -> Seq<u8> {
    if l < 32 {
        seq![(0xa0 + l) as u8]
    } else if l < 256 {
        seq![0xd9u8, l as u8]
    } else if l < 65536 {
        seq![0xdau8, (l / 256) as u8, (l % 256) as u8]
    } else {
        seq![
            0xdbu8,
            (l / 16777216) as u8,
            ((l / 65536) % 256) as u8,
            ((l / 256) % 256) as u8,
            (l % 256) as u8,
        ]
    }
}

/// Canonical header for a binary blob of `l` bytes.
pub open spec fn spec_enc_bin_header(l: nat) -> Seq<u8> {
    if l < 256 {
        seq![0xc4u8, l as u8]
    } else if l < 65536 {
        seq![0xc5u8, (l / 256) as u8, (l % 256) as u8]
    } else {
        seq![
            0xc6u8,
            (l / 16777216) as u8,
            ((l / 65536) % 256) as u8,
            ((l / 256) % 256) as u8,
            (l % 256) as u8,
        ]
    }
}

/// Canonical header for a map of `n` entries.
pub open spec fn spec_enc_map_header(n: nat) -> Seq<u8> {
    if n < 16 {
        seq![(0x80 + n) as u8]
    } else if n < 65536 {
        seq![0xdeu8, (n / 256) as u8, (n % 256) as u8]
    } else {
        seq![
            0xdfu8,
            (n / 16777216) as u8,
            ((n / 65536) % 256) as u8,
            ((n / 256) % 256) as u8,
            (n % 256) as u8,
        ]
    }
}

/// A string element encoding: canonical header, then the UTF-8 bytes of the text.
pub open spec fn spec_enc_str(s: Seq<char>) -> Seq<u8> {
    spec_enc_str_header(encode_utf8(s).len()) + encode_utf8(s)
}

/// A binary element encoding: canonical header, then the raw bytes.
pub open spec fn spec_enc_bin(v: Seq<u8>) -> Seq<u8> {
    spec_enc_bin_header(v.len()) + v
}

/// An unsigned integer element encoding (positive fixint, uint8, uint16 or uint32).
pub open spec fn spec_enc_uint(v: nat) -> Seq<u8> {
    if v < 128 {
        seq![v as u8]
    } else if v < 256 {
        seq![0xccu8, v as u8]
    } else if v < 65536 {
        seq![0xcdu8, (v / 256) as u8, (v % 256) as u8]
    } else {
        seq![
            0xceu8,
            (v / 16777216) as u8,
            ((v / 65536) % 256) as u8,
            ((v / 256) % 256) as u8,
            (v % 256) as u8,
        ]
    }
}

proof fn lemma_be_digits(l: nat)
    requires
        l < 0x1_0000_0000,
    ensures
        l / 16777216 < 256,
        (l / 65536) % 256 < 256,
        (l / 256) % 256 < 256,
        l % 256 < 256,
        (l / 16777216) * 16777216 + ((l / 65536) % 256) * 65536 + ((l / 256) % 256) * 256 + l % 256
            == l,
{
    assert((l / 16777216) * 16777216 + ((l / 65536) % 256) * 65536 + ((l / 256) % 256) * 256 + l
        % 256 == l) by (nonlinear_arith)
        requires
            l < 0x1_0000_0000,
    ;
    assert(l / 16777216 < 256) by (nonlinear_arith)
        requires
            l < 0x1_0000_0000,
    ;
}

proof fn lemma_be16_digits(l: nat)
    requires
        l < 65536,
    ensures
        l / 256 < 256,
        (l / 256) * 256 + l % 256 == l,
{
    assert((l / 256) * 256 + l % 256 == l) by (nonlinear_arith)
        requires
            l < 65536,
    ;
}

/// Parsing a buffer that carries a canonical string header at `i` recovers the length.
pub proof fn lemma_parse_str_header_enc(l: nat, b: Seq<u8>, i: int)
    requires
        l <= MAX_LEN,
        0 <= i,
        i + spec_enc_str_header(l).len() <= b.len(),
        b.subrange(i, i + spec_enc_str_header(l).len()) == spec_enc_str_header(l),
    ensures
        spec_parse_str_header(b, i) == ParseStep::Found(l as int, i + spec_enc_str_header(l).len()),
{
    let h = spec_enc_str_header(l);
    assert(b[i] == h[0]);
    if l < 32 {
    } else if l < 256 {
        assert(b[i + 1] == h[1]);
    } else if l < 65536 {
        lemma_be16_digits(l);
        assert(b[i + 1] == h[1] && b[i + 2] == h[2]);
    } else {
        lemma_be_digits(l);
        assert(b[i + 1] == h[1] && b[i + 2] == h[2] && b[i + 3] == h[3] && b[i + 4] == h[4]);
    }
}

/// Parsing a buffer that carries a canonical binary header at `i` recovers the length.
pub proof fn lemma_parse_bin_header_enc(l: nat, b: Seq<u8>, i: int)
    requires
        l <= MAX_LEN,
        0 <= i,
        i + spec_enc_bin_header(l).len() <= b.len(),
        b.subrange(i, i + spec_enc_bin_header(l).len()) == spec_enc_bin_header(l),
    ensures
        spec_parse_bin_header(b, i) == ParseStep::Found(l as int, i + spec_enc_bin_header(l).len()),
{
    let h = spec_enc_bin_header(l);
    assert(b[i] == h[0]);
    if l < 256 {
        assert(b[i + 1] == h[1]);
    } else if l < 65536 {
        lemma_be16_digits(l);
        assert(b[i + 1] == h[1] && b[i + 2] == h[2]);
    } else {
        lemma_be_digits(l);
        assert(b[i + 1] == h[1] && b[i + 2] == h[2] && b[i + 3] == h[3] && b[i + 4] == h[4]);
    }
}

/// Parsing a buffer that carries a canonical map header at `i` recovers the entry count.
pub proof fn lemma_parse_map_header_enc(n: nat, b: Seq<u8>, i: int)
    requires
        n <= MAX_LEN,
        0 <= i,
        i + spec_enc_map_header(n).len() <= b.len(),
        b.subrange(i, i + spec_enc_map_header(n).len()) == spec_enc_map_header(n),
    ensures
        spec_parse_map_header(b, i) == ParseStep::Found(n as int, i + spec_enc_map_header(n).len()),
{
    let h = spec_enc_map_header(n);
    assert(b[i] == h[0]);
    if n < 16 {
    } else if n < 65536 {
        lemma_be16_digits(n);
        assert(b[i + 1] == h[1] && b[i + 2] == h[2]);
    } else {
        lemma_be_digits(n);
        assert(b[i + 1] == h[1] && b[i + 2] == h[2] && b[i + 3] == h[3] && b[i + 4] == h[4]);
    }
}

/// Relies on String::from_utf8: yields the bytes as a string exactly when
/// they are valid UTF-8.
#[verifier::external_body]
fn bytes_to_string(v: Vec<u8>) -> (r: Option<String>)
    ensures
        r matches Some(s) ==> valid_utf8(v@) && s@ == decode_utf8(v@),
        r is None ==> !valid_utf8(v@),
{
    String::from_utf8(v).ok()
}

/// The bytes of `b` from `from` (inclusive) to `to` (exclusive), as a fresh vector.
fn copy_range(b: &Vec<u8>, from: usize, to: usize) -> (r: Vec<u8>)
    requires
        from <= to <= b@.len(),
    ensures
        r@ == b@.subrange(from as int, to as int),
{
    let mut r: Vec<u8> = Vec::new();
    let mut j: usize = from;
    while j < to
        invariant
            from <= j <= to <= b@.len(),
            r@ == b@.subrange(from as int, j as int),
        decreases to - j,
    {
        r.push(b[j]);
        assert(b@.subrange(from as int, j + 1 as int) =~= b@.subrange(from as int, j as int).push(
            b@[j as int],
        ));
        j = j + 1;
    }
    r
}

fn parse_str_header(b: &Vec<u8>, i: usize) -> (r: DecStep<usize>)
    ensures
        r matches DecStep::Found(l, e) ==> spec_parse_str_header(b@, i as int)
            == ParseStep::<int>::Found(l as int, e as int) && i < e <= b@.len() && l <= MAX_LEN,
        r is Short ==> spec_parse_str_header(b@, i as int) is Short,
        r is Bad ==> spec_parse_str_header(b@, i as int) is Bad,
{
    if i >= b.len() {
        return DecStep::Short;
    }
    let h = b[i];
    if 0xa0 <= h && h <= 0xbf {
        DecStep::Found((h - 0xa0) as usize, i + 1)
    } else if h == 0xd9 {
        if b.len() - i >= 2 {
            DecStep::Found(b[i + 1] as usize, i + 2)
        } else {
            DecStep::Short
        }
    } else if h == 0xda {
        if b.len() - i >= 3 {
            DecStep::Found((b[i + 1] as usize) * 256 + (b[i + 2] as usize), i + 3)
        } else {
            DecStep::Short
        }
    } else if h == 0xdb {
        if b.len() - i >= 5 {
            let l: usize = (b[i + 1] as usize) * 16777216 + (b[i + 2] as usize) * 65536 + (b[i
                + 3] as usize) * 256 + (b[i + 4] as usize);
            DecStep::Found(l, i + 5)
        } else {
            DecStep::Short
        }
    } else {
        DecStep::Bad
    }
}

fn parse_bin_header(b: &Vec<u8>, i: usize) -> (r: DecStep<usize>)
    ensures
        r matches DecStep::Found(l, e) ==> spec_parse_bin_header(b@, i as int)
            == ParseStep::<int>::Found(l as int, e as int) && i < e <= b@.len() && l <= MAX_LEN,
        r is Short ==> spec_parse_bin_header(b@, i as int) is Short,
        r is Bad ==> spec_parse_bin_header(b@, i as int) is Bad,
{
    if i >= b.len() {
        return DecStep::Short;
    }
    let h = b[i];
    if h == 0xc4 {
        if b.len() - i >= 2 {
            DecStep::Found(b[i + 1] as usize, i + 2)
        } else {
            DecStep::Short
        }
    } else if h == 0xc5 {
        if b.len() - i >= 3 {
            DecStep::Found((b[i + 1] as usize) * 256 + (b[i + 2] as usize), i + 3)
        } else {
            DecStep::Short
        }
    } else if h == 0xc6 {
        if b.len() - i >= 5 {
            let l: usize = (b[i + 1] as usize) * 16777216 + (b[i + 2] as usize) * 65536 + (b[i
                + 3] as usize) * 256 + (b[i + 4] as usize);
            DecStep::Found(l, i + 5)
        } else {
            DecStep::Short
        }
    } else {
        DecStep::Bad
    }
}

pub fn parse_map_header(b: &Vec<u8>, i: usize) -> (r: DecStep<usize>)
    ensures
        r matches DecStep::Found(n, e) ==> spec_parse_map_header(b@, i as int)
            == ParseStep::<int>::Found(n as int, e as int) && i < e <= b@.len() && n <= MAX_LEN,
        r is Short ==> spec_parse_map_header(b@, i as int) is Short,
        r is Bad ==> spec_parse_map_header(b@, i as int) is Bad,
{
    if i >= b.len() {
        return DecStep::Short;
    }
    let h = b[i];
    if 0x80 <= h && h <= 0x8f {
        DecStep::Found((h - 0x80) as usize, i + 1)
    } else if h == 0xde {
        if b.len() - i >= 3 {
            DecStep::Found((b[i + 1] as usize) * 256 + (b[i + 2] as usize), i + 3)
        } else {
            DecStep::Short
        }
    } else if h == 0xdf {
        if b.len() - i >= 5 {
            let n: usize = (b[i + 1] as usize) * 16777216 + (b[i + 2] as usize) * 65536 + (b[i
                + 3] as usize) * 256 + (b[i + 4] as usize);
            DecStep::Found(n, i + 5)
        } else {
            DecStep::Short
        }
    } else {
        DecStep::Bad
    }
}

/// Decode one string element starting at `i`.
pub fn parse_str(b: &Vec<u8>, i: usize) -> (r: DecStep<String>)
    ensures
        r matches DecStep::Found(s, e) ==> spec_parse_str(b@, i as int)
            == ParseStep::<Seq<char>>::Found(s@, e as int) && i < e <= b@.len(),
        r is Short ==> spec_parse_str(b@, i as int) is Short,
        r is Bad ==> spec_parse_str(b@, i as int) is Bad,
{
    match parse_str_header(b, i) {
        DecStep::Found(l, ds) => {
            if l > b.len() - ds {
                DecStep::Short
            } else {
                let bytes = copy_range(b, ds, ds + l);
                match bytes_to_string(bytes) {
                    Some(s) => DecStep::Found(s, ds + l),
                    None => DecStep::Bad,
                }
            }
        },
        DecStep::Short => DecStep::Short,
        DecStep::Bad => DecStep::Bad,
    }
}

/// Decode one binary element starting at `i`.
pub fn parse_bin(b: &Vec<u8>, i: usize) -> (r: DecStep<Vec<u8>>)
    ensures
        r matches DecStep::Found(v, e) ==> spec_parse_bin(b@, i as int)
            == ParseStep::<Seq<u8>>::Found(v@, e as int) && i < e <= b@.len(),
        r is Short ==> spec_parse_bin(b@, i as int) is Short,
        r is Bad ==> spec_parse_bin(b@, i as int) is Bad,
{
    match parse_bin_header(b, i) {
        DecStep::Found(l, ds) => {
            if l > b.len() - ds {
                DecStep::Short
            } else {
                let bytes = copy_range(b, ds, ds + l);
                DecStep::Found(bytes, ds + l)
            }
        },
        DecStep::Short => DecStep::Short,
        DecStep::Bad => DecStep::Bad,
    }
}

fn push_be_tail(out: &mut Vec<u8>, l: usize)
    requires
        l <= MAX_LEN,
    ensures
        final(out)@ == old(out)@ + seq![
            ((l as nat) / 16777216) as u8,
            (((l as nat) / 65536) % 256) as u8,
            (((l as nat) / 256) % 256) as u8,
            ((l as nat) % 256) as u8,
        ],
{
    let ghost pre = out@;
    out.push((l / 16777216) as u8);
    out.push(((l / 65536) % 256) as u8);
    out.push(((l / 256) % 256) as u8);
    out.push((l % 256) as u8);
    assert(out@ =~= pre + seq![
        ((l as nat) / 16777216) as u8,
        (((l as nat) / 65536) % 256) as u8,
        (((l as nat) / 256) % 256) as u8,
        ((l as nat) % 256) as u8,
    ]);
}

/// Append the canonical string header for length `l`.
fn enc_str_header(out: &mut Vec<u8>, l: usize)
    requires
        l <= MAX_LEN,
    ensures
        final(out)@ == old(out)@ + spec_enc_str_header(l as nat),
{
    let ghost pre = out@;
    if l < 32 {
        out.push(0xa0 + (l as u8));
        assert(out@ =~= pre + spec_enc_str_header(l as nat));
    } else if l < 256 {
        out.push(0xd9);
        out.push(l as u8);
        assert(out@ =~= pre + spec_enc_str_header(l as nat));
    } else if l < 65536 {
        out.push(0xda);
        out.push((l / 256) as u8);
        out.push((l % 256) as u8);
        assert(out@ =~= pre + spec_enc_str_header(l as nat));
    } else {
        out.push(0xdb);
        push_be_tail(out, l);
        assert(out@ =~= pre + spec_enc_str_header(l as nat));
    }
}

/// Append the canonical binary header for length `l`.
fn enc_bin_header(out: &mut Vec<u8>, l: usize)
    requires
        l <= MAX_LEN,
    ensures
        final(out)@ == old(out)@ + spec_enc_bin_header(l as nat),
{
    let ghost pre = out@;
    if l < 256 {
        out.push(0xc4);
        out.push(l as u8);
        assert(out@ =~= pre + spec_enc_bin_header(l as nat));
    } else if l < 65536 {
        out.push(0xc5);
        out.push((l / 256) as u8);
        out.push((l % 256) as u8);
        assert(out@ =~= pre + spec_enc_bin_header(l as nat));
    } else {
        out.push(0xc6);
        push_be_tail(out, l);
        assert(out@ =~= pre + spec_enc_bin_header(l as nat));
    }
}

/// Append the canonical map header for `n` entries.
pub fn enc_map_header(out: &mut Vec<u8>, n: usize)
    requires
        n <= MAX_LEN,
    ensures
        final(out)@ == old(out)@ + spec_enc_map_header(n as nat),
{
    let ghost pre = out@;
    if n < 16 {
        out.push(0x80 + (n as u8));
        assert(out@ =~= pre + spec_enc_map_header(n as nat));
    } else if n < 65536 {
        out.push(0xde);
        out.push((n / 256) as u8);
        out.push((n % 256) as u8);
        assert(out@ =~= pre + spec_enc_map_header(n as nat));
    } else {
        out.push(0xdf);
        push_be_tail(out, n);
        assert(out@ =~= pre + spec_enc_map_header(n as nat));
    }
}

fn push_all(out: &mut Vec<u8>, v: &[u8])
    ensures
        final(out)@ == old(out)@ + v@,
{
    let mut j: usize = 0;
    while j < v.len()
        invariant
            j <= v@.len(),
            out@ == old(out)@ + v@.subrange(0, j as int),
        decreases v@.len() - j,
    {
        out.push(v[j]);
        assert(v@.subrange(0, j + 1 as int) =~= v@.subrange(0, j as int).push(v@[j as int]));
        assert(out@ =~= old(out)@ + v@.subrange(0, j + 1 as int));
        j = j + 1;
    }
    assert(v@.subrange(0, v@.len() as int) =~= v@);
}

/// Append a string element: succeeds unless the UTF-8 length exceeds `MAX_LEN`.
pub fn enc_str(out: &mut Vec<u8>, s: &str) -> (ok: bool)
    ensures
        ok ==> final(out)@ == old(out)@ + spec_enc_str(s@) && encode_utf8(s@).len() <= MAX_LEN,
        !ok ==> final(out)@ == old(out)@ && encode_utf8(s@).len() > MAX_LEN,
{
    let bytes = s.as_bytes();
    if bytes.len() > MAX_LEN {
        return false;
    }
    enc_str_header(out, bytes.len());
    push_all(out, bytes);
    true
}

/// Append a binary element: succeeds unless the length exceeds `MAX_LEN`.
pub fn enc_bin(out: &mut Vec<u8>, v: &Vec<u8>) -> (ok: bool)
    ensures
        ok ==> final(out)@ == old(out)@ + spec_enc_bin(v@) && v@.len() <= MAX_LEN,
        !ok ==> final(out)@ == old(out)@ && v@.len() > MAX_LEN,
{
    if v.len() > MAX_LEN {
        return false;
    }
    enc_bin_header(out, v.len());
    push_all(out, v.as_slice());
    true
}

/// Append an unsigned integer element in its smallest form.
pub fn enc_uint(out: &mut Vec<u8>, v: u32)
    ensures
        final(out)@ == old(out)@ + spec_enc_uint(v as nat),
{
    let ghost pre = out@;
    if v < 128 {
        out.push(v as u8);
        assert(out@ =~= pre + spec_enc_uint(v as nat));
    } else if v < 256 {
        out.push(0xcc);
        out.push(v as u8);
        assert(out@ =~= pre + spec_enc_uint(v as nat));
    } else if v < 65536 {
        out.push(0xcd);
        out.push((v / 256) as u8);
        out.push((v % 256) as u8);
        assert(out@ =~= pre + spec_enc_uint(v as nat));
    } else {
        out.push(0xce);
        out.push((v / 16777216) as u8);
        out.push(((v / 65536) % 256) as u8);
        out.push(((v / 256) % 256) as u8);
        out.push((v % 256) as u8);
        assert(out@ =~= pre + spec_enc_uint(v as nat));
    }
}

/// Decoding a buffer that carries a canonical string element at `i` recovers the text.
pub proof fn lemma_parse_str_enc(s: Seq<char>, b: Seq<u8>, i: int)
    requires
        encode_utf8(s).len() <= MAX_LEN,
        0 <= i,
        i + spec_enc_str(s).len() <= b.len(),
        b.subrange(i, i + spec_enc_str(s).len()) == spec_enc_str(s),
    ensures
        spec_parse_str(b, i) == ParseStep::<Seq<char>>::Found(s, i + spec_enc_str(s).len()),
{
    broadcast use vstd::utf8::encode_utf8_valid_utf8, vstd::utf8::encode_utf8_decode_utf8;

    let u = encode_utf8(s);
    let h = spec_enc_str_header(u.len());
    assert(b.subrange(i, i + h.len() as int) =~= h) by {
        assert forall|k: int| 0 <= k < h.len() implies b.subrange(i, i + h.len() as int)[k] == h[k]
        by {
            assert(b.subrange(i, i + spec_enc_str(s).len())[k] == h[k]);
        }
    }
    lemma_parse_str_header_enc(u.len(), b, i);
    let ds = i + h.len();
    assert(b.subrange(ds, ds + u.len()) =~= u) by {
        assert forall|k: int| 0 <= k < u.len() implies b.subrange(ds, ds + u.len())[k] == u[k] by {
            assert(b.subrange(i, i + spec_enc_str(s).len())[h.len() + k] == u[k]);
        }
    }
}

/// Decoding a buffer that carries a canonical binary element at `i` recovers the bytes.
pub proof fn lemma_parse_bin_enc(v: Seq<u8>, b: Seq<u8>, i: int)
    requires
        v.len() <= MAX_LEN,
        0 <= i,
        i + spec_enc_bin(v).len() <= b.len(),
        b.subrange(i, i + spec_enc_bin(v).len()) == spec_enc_bin(v),
    ensures
        spec_parse_bin(b, i) == ParseStep::<Seq<u8>>::Found(v, i + spec_enc_bin(v).len()),
{
    let h = spec_enc_bin_header(v.len());
    assert(b.subrange(i, i + h.len() as int) =~= h) by {
        assert forall|k: int| 0 <= k < h.len() implies b.subrange(i, i + h.len() as int)[k] == h[k]
        by {
            assert(b.subrange(i, i + spec_enc_bin(v).len())[k] == h[k]);
        }
    }
    lemma_parse_bin_header_enc(v.len(), b, i);
    let ds = i + h.len();
    assert(b.subrange(ds, ds + v.len()) =~= v) by {
        assert forall|k: int| 0 <= k < v.len() implies b.subrange(ds, ds + v.len())[k] == v[k] by {
            assert(b.subrange(i, i + spec_enc_bin(v).len())[h.len() + k] == v[k]);
        }
    }
}

} // verus!

