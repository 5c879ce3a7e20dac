//! The Franz handshake protocol.
//!
//! Every connection opens with a length-prefixed payload of
//! comma-separated `key=value` pairs:
//!
//! `[message length : u32 big-endian]([key]=[value],... : utf8)`
//!
//! Mandatory keys: `version`, `topic`, `api`.  Optional: `group`.
//! Unknown keys are ignored; of duplicate keys the last wins; a pair
//! without a `key=value` separator is malformed and rejected.

use vstd::prelude::*;
use vstd::utf8::valid_utf8;

verus! {

/// At most this many `key=value` fields of a handshake payload are read;
/// any further fields are ignored.
pub const HANDSHAKE_NUM_FIELDS: usize = 16;

/// True of the ASCII whitespace bytes that field keys and values are
/// trimmed of.
pub open spec fn is_ws(b: u8) -> bool {
    b == 0x20 || (0x09 <= b && b <= 0x0d)
}

/// ASCII lowercasing of one byte; other bytes are unchanged.
pub open spec fn lower(b: u8) -> u8 {
    if 0x41 <= b && b <= 0x5a {
        (b + 0x20) as u8
    } else {
        b
    }
}

/// ASCII lowercasing of a byte sequence.
pub open spec fn lower_seq(s: Seq<u8>) -> Seq<u8> {
    s.map_values(|b: u8| lower(b))
}

/// The sequence without its leading whitespace.
pub open spec fn trim_front(s: Seq<u8>) -> Seq<u8>
    decreases s.len(),
{
    if s.len() > 0 && is_ws(s[0]) {
        trim_front(s.skip(1))
    } else {
        s
    }
}

/// The sequence without its trailing whitespace.
pub open spec fn trim_back(s: Seq<u8>) -> Seq<u8>
    decreases s.len(),
{
    if s.len() > 0 && is_ws(s[s.len() - 1]) {
        trim_back(s.take(s.len() - 1))
    } else {
        s
    }
}

/// The sequence without leading and trailing whitespace.
pub open spec fn trim(s: Seq<u8>) -> Seq<u8> {
    trim_back(trim_front(s))
}

/// Index of the first occurrence of `b` in `s`, or `s.len()` if there is
/// none.
pub open spec fn first_occ(s: Seq<u8>, b: u8) -> int
    decreases s.len(),
{
    if s.len() == 0 {
        0
    } else if s[0] == b {
        0
    } else {
        1 + first_occ(s.skip(1), b)
    }
}

/// A scan that stops at the first occurrence computes `first_occ`.
pub proof fn lemma_first_occ_is(s: Seq<u8>, b: u8, e: int)
    requires
        0 <= e <= s.len(),
        forall|i: int| 0 <= i < e ==> s[i] != b,
        e < s.len() ==> s[e] == b,
    ensures
        first_occ(s, b) == e,
    decreases s.len(),
{
    if s.len() > 0 && s[0] != b {
        assert forall|i: int| 0 <= i < e - 1 implies s.skip(1)[i] != b by {
            assert(s.skip(1)[i] == s[i + 1]);
        }
        if e - 1 < s.skip(1).len() {
            assert(s.skip(1)[e - 1] == s[e]);
        }
        lemma_first_occ_is(s.skip(1), b, e - 1);
    }
}

/// Index of the first occurrence of `b` within `s[from..to]`, as an
/// absolute index, or `to` if there is none.
pub fn find_in(s: &[u8], from: usize, to: usize, b: u8) -> (r: usize)
    requires
        from <= to <= s@.len(),
    ensures
        r == from + first_occ(s@.subrange(from as int, to as int), b),
        from <= r <= to,
        forall|i: int| from <= i < r ==> s@[i] != b,
        r < to ==> s@[r as int] == b,
{
    let mut i = from;
    while i < to && s[i] != b
        invariant
            from <= i <= to <= s@.len(),
            forall|j: int| from <= j < i ==> s@[j] != b,
        decreases to - i,
    {
        i += 1;
    }
    proof {
        let sub = s@.subrange(from as int, to as int);
        assert forall|j: int| 0 <= j < i - from implies sub[j] != b by {
            assert(sub[j] == s@[j + from]);
        }
        if i < to {
            assert(sub[i - from] == s@[i as int]);
        }
        lemma_first_occ_is(sub, b, i - from);
    }
    i
}

/// Bounds of `s[from..to]` with leading and trailing whitespace removed.
pub fn trim_in(s: &[u8], from: usize, to: usize) -> (r: (usize, usize))
    requires
        from <= to <= s@.len(),
    ensures
        from <= r.0 <= r.1 <= to,
        s@.subrange(r.0 as int, r.1 as int) == trim(s@.subrange(from as int, to as int)),
{
    let ghost orig = s@.subrange(from as int, to as int);
    let mut i = from;
    while i < to && is_ws_exec(s[i])
        invariant
            from <= i <= to <= s@.len(),
            trim_front(orig) == trim_front(s@.subrange(i as int, to as int)),
        decreases to - i,
    {
        proof {
            let cur = s@.subrange(i as int, to as int);
            assert(cur.skip(1) =~= s@.subrange(i + 1, to as int));
        }
        i += 1;
    }
    proof {
        let cur = s@.subrange(i as int, to as int);
        assert(trim_front(cur) == cur);
        assert(trim(orig) == trim_back(s@.subrange(i as int, to as int)));
    }
    let mut j = to;
    while j > i && is_ws_exec(s[j - 1])
        invariant
            from <= i <= j <= to <= s@.len(),
            trim(orig) == trim_back(s@.subrange(i as int, j as int)),
        decreases j,
    {
        proof {
            let cur = s@.subrange(i as int, j as int);
            assert(cur.take(cur.len() - 1) =~= s@.subrange(i as int, j - 1));
        }
        j -= 1;
    }
    proof {
        let cur = s@.subrange(i as int, j as int);
        assert(trim_back(cur) == cur);
    }
    (i, j)
}

/// Whether `b` is ASCII whitespace, as [`is_ws`] states.
pub fn is_ws_exec(b: u8) -> (r: bool)
    ensures
        r == is_ws(b),
{
    b == 0x20 || (0x09 <= b && b <= 0x0d)
}

/// A copy of `s[from..to]` with ASCII upper-case letters lowered.
pub fn lower_vec(s: &[u8], from: usize, to: usize) -> (r: Vec<u8>)
    requires
        from <= to <= s@.len(),
    ensures
        r@ == lower_seq(s@.subrange(from as int, to as int)),
{
    let ghost sub = s@.subrange(from as int, to as int);
    let mut v: Vec<u8> = Vec::new();
    let mut i = from;
    while i < to
        invariant
            from <= i <= to <= s@.len(),
            v@.len() == i - from,
            forall|j: int| 0 <= j < v@.len() ==> v@[j] == lower(s@.subrange(from as int, to as int)[j]),
        decreases to - i,
    {
        let b = s[i];
        if 0x41 <= b && b <= 0x5a {
            v.push(b + 0x20);
        } else {
            v.push(b);
        }
        i += 1;
    }
    proof {
        assert(v@ =~= lower_seq(sub));
    }
    v
}

/// A copy of `s[from..to]`.
pub fn copy_range(s: &[u8], from: usize, to: usize) -> (r: Vec<u8>)
    requires
        from <= to <= s@.len(),
    ensures
        r@ == s@.subrange(from as int, to as int),
{
    let mut v: Vec<u8> = Vec::new();
    let mut i = from;
    while i < to
        invariant
            from <= i <= to <= s@.len(),
            v@.len() == i - from,
            forall|j: int| 0 <= j < v@.len() ==> v@[j] == s@[from + j],
        decreases to - i,
    {
        v.push(s[i]);
        i += 1;
    }
    proof {
        assert(v@ =~= s@.subrange(from as int, to as int));
    }
    v
}

/// True when the two byte slices hold the same bytes.
pub fn bytes_eq(a: &[u8], b: &[u8]) -> (r: bool)
    ensures
        r == (a@ == b@),
{
    if a.len() != b.len() {
        proof {
            assert(a@.len() != b@.len());
        }
        return false;
    }
    let mut i: usize = 0;
    while i < a.len()
        invariant
            0 <= i <= a@.len(),
            a@.len() == b@.len(),
            forall|j: int| 0 <= j < i ==> a@[j] == b@[j],
        decreases a@.len() - i,
    {
        if a[i] != b[i] {
            return false;
        }
        i += 1;
    }
    proof {
        assert(a@ =~= b@);
    }
    true
}

} // verus!

// --- field splitting ---------------------------------------------------

verus! {

pub const COMMA: u8 = 0x2c;

pub const EQUALS: u8 = 0x3d;

/// The `(key, value)` pair a single `key=value` chunk contributes, or
/// `None` when the chunk holds no `=` and is skipped.  The key is trimmed
/// and lowercased; the value is what stands between the first and the
/// second `=` (or the chunk's end), trimmed.
pub open spec fn chunk_field(c: Seq<u8>) -> Option<(Seq<u8>, Seq<u8>)> {
    let e = first_occ(c, EQUALS);
    if e == c.len() {
        None
    } else {
        let after = c.skip(e + 1);
        let v = after.take(first_occ(after, EQUALS));
        Some((lower_seq(trim(c.take(e))), trim(v)))
    }
}

/// True when each of the first `budget` comma-separated chunks of `s`
/// holds a `key=value` separator; a chunk without `=` is a malformed
/// pair.
pub open spec fn chunks_wf(s: Seq<u8>, budget: nat) -> bool
    decreases budget,
{
    if budget == 0 {
        true
    } else {
        let e = first_occ(s, COMMA);
        &&& first_occ(s.take(e), EQUALS) < e
        &&& (e == s.len() || chunks_wf(s.skip(e + 1), (budget - 1) as nat))
    }
}

/// The `(key, value)` pairs of the first `budget` comma-separated chunks
/// of `s`, in order.
pub open spec fn fields_of(s: Seq<u8>, budget: nat) -> Seq<(Seq<u8>, Seq<u8>)>
    decreases budget,
{
    if budget == 0 {
        Seq::empty()
    } else {
        let e = first_occ(s, COMMA);
        let head = chunk_field(s.take(e));
        let tail = if e == s.len() {
            Seq::<(Seq<u8>, Seq<u8>)>::empty()
        } else {
            fields_of(s.skip(e + 1), (budget - 1) as nat)
        };
        match head {
            Some(kv) => seq![kv] + tail,
            None => tail,
        }
    }
}

/// The value of the last field named `k`, if any: later duplicates of a
/// key shadow earlier ones.
pub open spec fn lookup(fs: Seq<(Seq<u8>, Seq<u8>)>, k: Seq<u8>) -> Option<Seq<u8>>
    decreases fs.len(),
{
    if fs.len() == 0 {
        None
    } else if fs.last().0 == k {
        Some(fs.last().1)
    } else {
        lookup(fs.drop_last(), k)
    }
}

/// The fields of a parsed handshake payload, looked up by key.
#[derive(Debug)]
pub struct FieldMap {
    entries: Vec<(Vec<u8>, Vec<u8>)>,
}

/// The mathematical pairs behind a sequence of byte-vector pairs.
pub open spec fn pairs_view(es: Seq<(Vec<u8>, Vec<u8>)>) -> Seq<(Seq<u8>, Seq<u8>)> {
    Seq::new(es.len(), |i: int| (es[i].0@, es[i].1@))
}

impl View for FieldMap {
    type V = Seq<(Seq<u8>, Seq<u8>)>;

    closed spec fn view(&self) -> Seq<(Seq<u8>, Seq<u8>)> {
        pairs_view(self.entries@)
    }
}

impl FieldMap {
    /// The value of key `k`, the last occurrence winning, as [`lookup`]
    /// states.
    pub fn get(&self, k: &[u8]) -> (r: Option<&Vec<u8>>)
        ensures
            match r {
                Some(v) => lookup(self@, k@) == Some(v@),
                None => lookup(self@, k@) is None,
            },
    {
        let mut i = self.entries.len();
        proof {
            assert(self@.take(i as int) =~= self@);
        }
        while i > 0
            invariant
                i <= self.entries.len(),
                lookup(self@, k@) == lookup(self@.take(i as int), k@),
            decreases i,
        {
            i -= 1;
            proof {
                assert(self@.take(i + 1).last() == (self.entries@[i as int].0@,
                    self.entries@[i as int].1@));
                assert(self@.take(i + 1).drop_last() =~= self@.take(i as int));
            }
            if bytes_eq(self.entries[i].0.as_slice(), k) {
                return Some(&self.entries[i].1);
            }
        }
        proof {
            assert(self@.take(0).len() == 0);
        }
        None
    }
}

} // verus!

// --- handshake parsing -------------------------------------------------

verus! {

/// Why a handshake was rejected; the connection is dropped and no
/// session is created.
#[derive(Debug, Clone, Copy, PartialEq, Eq)]
pub enum HandshakeError {
    /// Reading the framed payload from the peer failed or timed out.
    IoError,
    /// A numeric field (`version` or `group`) is not a decimal `u16`.
    ParseNum,
    /// The payload is not valid UTF-8.
    FromUtf8Error,
    /// A required key is missing from the payload.
    ExpectedKey(&'static str),
    /// A `key=value` pair is malformed: a chunk without a `=`
    /// separator.
    InvalidFormat,
}

/// Relies on `core::str::from_utf8`: it returns `Ok` exactly when the
/// bytes are a valid UTF-8 encoding, which is what vstd's `valid_utf8`
/// states.
#[verifier::external_body]
fn utf8_check(b: &[u8]) -> (r: bool)
    ensures
        r == valid_utf8(b@),
{
    core::str::from_utf8(b).is_ok()
}

impl Handshake {
    /// Splits a handshake payload into its fields: the payload must be
    /// UTF-8 and its first [`HANDSHAKE_NUM_FIELDS`] comma-separated
    /// chunks must each hold a `key=value` separator; they contribute
    /// one pair each, as [`fields_of`] states.
    pub fn parse_data(data: Vec<u8>) -> (r: Result<FieldMap, HandshakeError>)
        ensures
            match r {
                Ok(m) => valid_utf8(data@) && chunks_wf(data@, HANDSHAKE_NUM_FIELDS as nat) && m@
                    == fields_of(data@, HANDSHAKE_NUM_FIELDS as nat),
                Err(e) => if !valid_utf8(data@) {
                    e == HandshakeError::FromUtf8Error
                } else {
                    !chunks_wf(data@, HANDSHAKE_NUM_FIELDS as nat) && e
                        == HandshakeError::InvalidFormat
                },
            },
    {
        if !utf8_check(data.as_slice()) {
            return Err(HandshakeError::FromUtf8Error);
        }
        let s = data.as_slice();
        let len = s.len();
        let mut entries: Vec<(Vec<u8>, Vec<u8>)> = Vec::new();
        let mut pos: usize = 0;
        let mut budget: usize = HANDSHAKE_NUM_FIELDS;
        let mut more: bool = true;
        proof {
            assert(s@.skip(0) =~= data@);
            assert(pairs_view(entries@) + fields_of(data@, HANDSHAKE_NUM_FIELDS as nat)
                =~= fields_of(data@, HANDSHAKE_NUM_FIELDS as nat));
        }
        while more && budget > 0
            invariant
                valid_utf8(data@),
                s@ == data@,
                len == s@.len(),
                pos <= len,
                budget <= HANDSHAKE_NUM_FIELDS,
                more ==> fields_of(data@, HANDSHAKE_NUM_FIELDS as nat) == pairs_view(entries@)
                    + fields_of(s@.skip(pos as int), budget as nat),
                !more ==> fields_of(data@, HANDSHAKE_NUM_FIELDS as nat) == pairs_view(entries@),
                more ==> (chunks_wf(data@, HANDSHAKE_NUM_FIELDS as nat) <==> chunks_wf(
                    s@.skip(pos as int),
                    budget as nat,
                )),
                !more ==> chunks_wf(data@, HANDSHAKE_NUM_FIELDS as nat),
            decreases (if more {
                budget + 1
            } else {
                0
            }),
        {
            let ghost rem = s@.skip(pos as int);
            let ghost old_entries = entries@;
            let ce = find_in(s, pos, len, COMMA);
            proof {
                assert(rem =~= s@.subrange(pos as int, len as int));
            }
            let ghost e = first_occ(rem, COMMA);
            let ghost chunk = rem.take(e);
            proof {
                assert(chunk =~= s@.subrange(pos as int, ce as int));
            }
            let eq = find_in(s, pos, ce, EQUALS);
            proof {
                assert(s@.subrange(pos as int, ce as int) == chunk);
                assert(eq - pos == first_occ(chunk, EQUALS));
            }
            if eq < ce {
                let (ks, ke) = trim_in(s, pos, eq);
                let key = lower_vec(s, ks, ke);
                let ve = find_in(s, eq + 1, ce, EQUALS);
                let (vs, vend) = trim_in(s, eq + 1, ve);
                let value = copy_range(s, vs, vend);
                proof {
                    let ghost after = chunk.skip(eq - pos + 1);
                    assert(after =~= s@.subrange(eq + 1, ce as int));
                    assert(chunk.take(eq - pos) =~= s@.subrange(pos as int, eq as int));
                    assert(after.take(first_occ(after, EQUALS)) =~= s@.subrange(eq + 1, ve as int));
                    assert(chunk_field(chunk) == Some((key@, value@)));
                }
                entries.push((key, value));
                proof {
                    assert(pairs_view(entries@) =~= pairs_view(old_entries) + seq![
                        (key@, value@),
                    ]);
                }
            } else {
                proof {
                    assert(first_occ(rem.take(e), EQUALS) == e);
                    assert(!chunks_wf(rem, budget as nat));
                }
                return Err(HandshakeError::InvalidFormat);
            }
            if ce < len {
                proof {
                    assert(rem.skip(e + 1) =~= s@.skip(ce + 1));
                    assert(first_occ(rem.take(e), EQUALS) < e);
                }
                pos = ce + 1;
                budget -= 1;
            } else {
                proof {
                    assert(e == rem.len());
                    assert(first_occ(rem.take(e), EQUALS) < e);
                    assert(chunks_wf(rem, budget as nat));
                }
                more = false;
            }
            proof {
                if more {
                    assert(fields_of(data@, HANDSHAKE_NUM_FIELDS as nat) == pairs_view(entries@)
                        + fields_of(s@.skip(pos as int), budget as nat));
                }
            }
        }
        proof {
            if more {
                assert(fields_of(s@.skip(pos as int), 0) == Seq::<(Seq<u8>, Seq<u8>)>::empty());
            }
            assert(pairs_view(entries@) + Seq::<(Seq<u8>, Seq<u8>)>::empty() =~= pairs_view(
                entries@,
            ));
        }
        Ok(FieldMap { entries })
    }
}

/// A parsed handshake request: protocol version, optional consumer
/// group, topic name and requested api, as the peer sent them.
#[derive(Debug)]
pub struct Handshake {
    pub _version: u16,
    pub group: Option<u16>,
    pub topic: Vec<u8>,
    pub api: Vec<u8>,
}

} // verus!

// --- numbers and required keys -----------------------------------------

verus! {

/// True of ASCII decimal digit bytes.
pub open spec fn is_digit(b: u8) -> bool {
    0x30 <= b && b <= 0x39
}

/// The number the decimal digit bytes denote, most significant first.
pub open spec fn digits_val(s: Seq<u8>) -> int
    decreases s.len(),
{
    if s.len() == 0 {
        0
    } else {
        digits_val(s.drop_last()) * 10 + (s.last() - 0x30)
    }
}

/// The digit bytes of a decimal `u16` literal: an optional leading `+`
/// is dropped.
pub open spec fn u16_digits(s: Seq<u8>) -> Seq<u8> {
    if s.len() > 0 && s[0] == 0x2b {
        s.skip(1)
    } else {
        s
    }
}

/// True when `s` is a decimal `u16`: an optional `+`, then at least one
/// digit and nothing else, denoting a value of at most 65535.
pub open spec fn valid_u16_bytes(s: Seq<u8>) -> bool {
    let d = u16_digits(s);
    &&& d.len() > 0
    &&& forall|i: int| 0 <= i < d.len() ==> is_digit(d[i])
    &&& digits_val(d) <= 0xffff
}

/// The value a valid decimal `u16` literal denotes.
pub open spec fn u16_val(s: Seq<u8>) -> int {
    digits_val(u16_digits(s))
}

pub proof fn lemma_digits_val_nonneg(d: Seq<u8>)
    requires
        forall|i: int| 0 <= i < d.len() ==> is_digit(d[i]),
    ensures
        digits_val(d) >= 0,
    decreases d.len(),
{
    if d.len() > 0 {
        assert forall|i: int| 0 <= i < d.drop_last().len() implies is_digit(d.drop_last()[i]) by {
            assert(d.drop_last()[i] == d[i]);
        }
        lemma_digits_val_nonneg(d.drop_last());
    }
}

/// Extending a digit string never decreases its value.
pub proof fn lemma_digits_val_prefix(d: Seq<u8>, k: int)
    requires
        0 <= k <= d.len(),
        forall|i: int| 0 <= i < d.len() ==> is_digit(d[i]),
    ensures
        digits_val(d.take(k)) <= digits_val(d),
    decreases d.len() - k,
{
    if k < d.len() {
        assert(d.take(k + 1).drop_last() =~= d.take(k));
        assert(d.take(k + 1).last() == d[k]);
        assert forall|i: int| 0 <= i < d.take(k).len() implies is_digit(d.take(k)[i]) by {
            assert(d.take(k)[i] == d[i]);
        }
        lemma_digits_val_nonneg(d.take(k));
        lemma_digits_val_prefix(d, k + 1);
    } else {
        assert(d.take(k) =~= d);
    }
}

/// Parses a decimal `u16` exactly as [`valid_u16_bytes`] and [`u16_val`]
/// state; anything else is a `ParseNum` error.
pub fn parse_u16(s: &[u8]) -> (r: Result<u16, HandshakeError>)
    ensures
        match r {
            Ok(v) => valid_u16_bytes(s@) && v == u16_val(s@),
            Err(e) => !valid_u16_bytes(s@) && e == HandshakeError::ParseNum,
        },
{
    let start: usize = if s.len() > 0 && s[0] == 0x2b {
        1
    } else {
        0
    };
    let ghost d = u16_digits(s@);
    proof {
        assert(d =~= s@.skip(start as int));
    }
    if start == s.len() {
        return Err(HandshakeError::ParseNum);
    }
    let mut acc: u32 = 0;
    let mut i = start;
    while i < s.len()
        invariant
            start <= i <= s@.len(),
            start <= 1,
            d == u16_digits(s@),
            d == s@.skip(start as int),
            d.len() == s@.len() - start,
            forall|j: int| 0 <= j < i - start ==> is_digit(d[j]),
            forall|j: int| start <= j < s@.len() ==> d[j - start] == s@[j],
            acc == digits_val(d.take(i - start)),
            acc <= 0xffff,
        decreases s@.len() - i,
    {
        let b = s[i];
        if !(0x30 <= b && b <= 0x39) {
            proof {
                assert(0 <= i - start < d.len());
                assert(d[i - start] == s@[i as int]);
                assert(!is_digit(d[i - start]));
                assert(!valid_u16_bytes(s@)) by {
                    if valid_u16_bytes(s@) {
                        assert(is_digit(u16_digits(s@)[i - start]));
                    }
                }
            }
            return Err(HandshakeError::ParseNum);
        }
        proof {
            assert(d.take(i - start + 1).drop_last() =~= d.take(i - start));
            assert(d.take(i - start + 1).last() == d[i - start]);
        }
        acc = acc * 10 + (b - 0x30) as u32;
        i += 1;
        if acc > 0xffff {
            proof {
                let k = i - start;
                assert(acc == digits_val(d.take(k)));
                if forall|j: int| 0 <= j < d.len() ==> is_digit(d[j]) {
                    lemma_digits_val_prefix(d, k);
                    assert(digits_val(d) >= digits_val(d.take(k)));
                    assert(!valid_u16_bytes(s@)) by {
                        if valid_u16_bytes(s@) {
                            assert(digits_val(u16_digits(s@)) <= 0xffff);
                        }
                    }
                } else {
                    let j = choose|j: int| 0 <= j < d.len() && !is_digit(d[j]);
                    assert(!is_digit(d[j]));
                    assert(!valid_u16_bytes(s@)) by {
                        if valid_u16_bytes(s@) {
                            assert(is_digit(u16_digits(s@)[j]));
                        }
                    }
                }
            }
            return Err(HandshakeError::ParseNum);
        }
    }
    proof {
        assert(d.take(s@.len() - start) =~= d);
    }
    Ok(acc as u16)
}

/// The big-endian 32-bit value of the first four bytes.
pub open spec fn be32(s: Seq<u8>) -> int {
    s[0] * 0x100_0000 + s[1] * 0x1_0000 + s[2] * 0x100 + s[3]
}

/// Reads the handshake's length prefix: a big-endian `u32`.  Fewer than
/// four bytes mean the peer hung up early.
pub fn parse_length(s: &[u8]) -> (r: Result<u32, HandshakeError>)
    ensures
        match r {
            Ok(v) => s@.len() >= 4 && v == be32(s@),
            Err(e) => s@.len() < 4 && e == HandshakeError::IoError,
        },
{
    if s.len() < 4 {
        return Err(HandshakeError::IoError);
    }
    let v = (s[0] as u32) * 0x100_0000 + (s[1] as u32) * 0x1_0000 + (s[2] as u32) * 0x100 + (
    s[3] as u32);
    Ok(v)
}

pub open spec fn key_version() -> Seq<u8> {
    seq![118u8, 101u8, 114u8, 115u8, 105u8, 111u8, 110u8]
}

pub open spec fn key_group() -> Seq<u8> {
    seq![103u8, 114u8, 111u8, 117u8, 112u8]
}

pub open spec fn key_topic() -> Seq<u8> {
    seq![116u8, 111u8, 112u8, 105u8, 99u8]
}

pub open spec fn key_api() -> Seq<u8> {
    seq![97u8, 112u8, 105u8]
}

/// The bytes of the key `version`.
pub fn key_version_vec() -> (r: Vec<u8>)
    ensures
        r@ == key_version(),
{
    let mut v: Vec<u8> = Vec::new();
    v.push(118);
    v.push(101);
    v.push(114);
    v.push(115);
    v.push(105);
    v.push(111);
    v.push(110);
    proof {
        assert(v@ =~= key_version());
    }
    v
}

/// The bytes of the key `group`.
pub fn key_group_vec() -> (r: Vec<u8>)
    ensures
        r@ == key_group(),
{
    let mut v: Vec<u8> = Vec::new();
    v.push(103);
    v.push(114);
    v.push(111);
    v.push(117);
    v.push(112);
    proof {
        assert(v@ =~= key_group());
    }
    v
}

/// The bytes of the key `topic`.
pub fn key_topic_vec() -> (r: Vec<u8>)
    ensures
        r@ == key_topic(),
{
    let mut v: Vec<u8> = Vec::new();
    v.push(116);
    v.push(111);
    v.push(112);
    v.push(105);
    v.push(99);
    proof {
        assert(v@ =~= key_topic());
    }
    v
}

/// The bytes of the key `api`.
pub fn key_api_vec() -> (r: Vec<u8>)
    ensures
        r@ == key_api(),
{
    let mut v: Vec<u8> = Vec::new();
    v.push(97);
    v.push(112);
    v.push(105);
    proof {
        assert(v@ =~= key_api());
    }
    v
}

/// What parsing a handshake payload yields: the version, the optional
/// group, and the topic and api bytes, or the first error in the order
/// the payload is examined (utf8, framing, group, version, topic, api).
pub open spec fn handshake_of(s: Seq<u8>) -> Result<
    (u16, Option<u16>, Seq<u8>, Seq<u8>),
    HandshakeError,
> {
    if !valid_utf8(s) {
        Err(HandshakeError::FromUtf8Error)
    } else if !chunks_wf(s, HANDSHAKE_NUM_FIELDS as nat) {
        Err(HandshakeError::InvalidFormat)
    } else {
        let m = fields_of(s, HANDSHAKE_NUM_FIELDS as nat);
        let group = lookup(m, key_group());
        if group matches Some(g) && !valid_u16_bytes(g) {
            Err(HandshakeError::ParseNum)
        } else {
            let g = match group {
                Some(gb) => Some((u16_val(gb) as u16)),
                None => None,
            };
            match lookup(m, key_version()) {
                None => Err(HandshakeError::ExpectedKey("version")),
                Some(vs) => if !valid_u16_bytes(vs) {
                    Err(HandshakeError::ParseNum)
                } else {
                    match lookup(m, key_topic()) {
                        None => Err(HandshakeError::ExpectedKey("topic")),
                        Some(t) => match lookup(m, key_api()) {
                            None => Err(HandshakeError::ExpectedKey("api")),
                            Some(a) => Ok(((u16_val(vs) as u16), g, t, a)),
                        },
                    }
                },
            }
        }
    }
}

impl Handshake {
    /// Parses a full handshake payload (the bytes after the length
    /// prefix) into a request, exactly as [`handshake_of`] states.
    ///
    /// The `topic` field is returned as the peer sent it, empty or
    /// unsafe included: deriving the data model's validated,
    /// filesystem-safe TopicName is `Handshake::topic_name`'s contract,
    /// and the topic registry's `resolve` applies the same test before
    /// anything touches disk.
    pub fn try_parse(data: Vec<u8>) -> (r: Result<Handshake, HandshakeError>)
        ensures
            match r {
                Ok(h) => handshake_of(data@) == Ok::<_, HandshakeError>(
                    (h._version, h.group, h.topic@, h.api@),
                ),
                Err(e) => handshake_of(data@) == Err::<(u16, Option<u16>, Seq<u8>, Seq<u8>), _>(e),
            },
    {
        let m = match Self::parse_data(data) {
            Ok(m) => m,
            Err(e) => {
                return Err(e);
            },
        };
        let gkey = key_group_vec();
        let group = match m.get(gkey.as_slice()) {
            None => None,
            Some(gv) => match parse_u16(gv.as_slice()) {
                Ok(g) => Some(g),
                Err(e) => {
                    return Err(e);
                },
            },
        };
        let vkey = key_version_vec();
        let version = match m.get(vkey.as_slice()) {
            None => {
                return Err(HandshakeError::ExpectedKey("version"));
            },
            Some(vv) => match parse_u16(vv.as_slice()) {
                Ok(v) => v,
                Err(e) => {
                    return Err(e);
                },
            },
        };
        let tkey = key_topic_vec();
        let topic = match m.get(tkey.as_slice()) {
            None => {
                return Err(HandshakeError::ExpectedKey("topic"));
            },
            Some(t) => copy_range(t.as_slice(), 0, t.len()),
        };
        let akey = key_api_vec();
        let api = match m.get(akey.as_slice()) {
            None => {
                return Err(HandshakeError::ExpectedKey("api"));
            },
            Some(a) => copy_range(a.as_slice(), 0, a.len()),
        };
        proof {
            assert(topic@ =~= lookup(m@, key_topic()).unwrap());
            assert(api@ =~= lookup(m@, key_api()).unwrap());
        }
        Ok(Handshake { _version: version, group, topic, api })
    }
}

} // verus!
