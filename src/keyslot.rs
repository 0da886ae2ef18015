use vstd::prelude::*;

verus! {

/// Number of hash slots in the keyspace.
pub const SLOT_COUNT: u16 = 16384;

/// One shift of the CRC-16 register (generator polynomial 0x1021).
pub open spec fn crc_shift(c: u16) -> u16 {
    if c & 0x8000u16 != 0 {
        ((c << 1u16) ^ 0x1021u16) as u16
    } else {
        (c << 1u16) as u16
    }
}

/// `n` shifts of the CRC-16 register.
pub open spec fn crc_rounds(c: u16, n: nat) -> u16
    decreases n,
{
    if n == 0 {
        c
    } else {
        crc_rounds(crc_shift(c), (n - 1) as nat)
    }
}

/// Feeds one byte into the CRC-16 register.
pub open spec fn crc_byte(c: u16, b: u8) -> u16 {
    crc_rounds(c ^ ((b as u16) << 8u16), 8)
}

/// CRC-16 (polynomial 0x1021, initial register 0) of a byte string.
pub open spec fn crc16(s: Seq<u8>) -> u16
    decreases s.len(),
{
    if s.len() == 0 {
        0
    } else {
        crc_byte(crc16(s.drop_last()), s.last())
    }
}

pub open spec fn open_brace() -> u8 {
    0x7bu8
}

pub open spec fn close_brace() -> u8 {
    0x7du8
}

/// `k[o]` is the first `{` of `k`, `k[c]` the first `}` after it, and at
/// least one byte stands between them.
pub open spec fn is_tag_span(k: Seq<u8>, o: int, c: int) -> bool {
    &&& 0 <= o
    &&& o + 1 < c
    &&& c < k.len()
    &&& k[o] == open_brace()
    &&& k[c] == close_brace()
    &&& forall|j: int| 0 <= j < o ==> k[j] != open_brace()
    &&& forall|j: int| o < j < c ==> k[j] != close_brace()
}

pub open spec fn has_tag(k: Seq<u8>) -> bool {
    exists|o: int, c: int| is_tag_span(k, o, c)
}

/// The bytes that are hashed for key `k`: its hash tag if it has one, else
/// the whole key.
pub open spec fn hashed_part(k: Seq<u8>) -> Seq<u8> {
    if has_tag(k) {
        let (o, c) = choose|o: int, c: int| is_tag_span(k, o, c);
        k.subrange(o + 1, c)
    } else {
        k
    }
}

/// The slot that owns key `k`.
pub open spec fn key_slot(k: Seq<u8>) -> u16 {
    (crc16(hashed_part(k)) % 16384) as u16
}

/// `{x}` followed by `rest`.
pub open spec fn tagged(x: Seq<u8>, rest: Seq<u8>) -> Seq<u8> {
    seq![open_brace()] + x + seq![close_brace()] + rest
}

/// Two keys that open with the same hash tag `{x}` share a slot, whatever
/// follows the tag, as long as the tag is not empty.
pub proof fn lemma_tag_decides_slot(x: Seq<u8>, a: Seq<u8>, b: Seq<u8>)
    requires
        x.len() > 0,
        x[0] != close_brace(),
    ensures
        key_slot(tagged(x, a)) == key_slot(tagged(x, b)),
{
    let c = lemma_first_close(x, 0);
    lemma_tagged_hashes(x, a, c);
    lemma_tagged_hashes(x, b, c);
}

/// Index of the first `}` in `x` at or after `from`, or `x.len()`.
proof fn lemma_first_close(x: Seq<u8>, from: int) -> (c: int)
    requires
        0 <= from <= x.len(),
        forall|j: int| 0 <= j < from ==> x[j] != close_brace(),
    ensures
        from <= c <= x.len(),
        forall|j: int| 0 <= j < c ==> x[j] != close_brace(),
        c < x.len() ==> x[c] == close_brace(),
    decreases x.len() - from,
{
    if from == x.len() || x[from] == close_brace() {
        from
    } else {
        lemma_first_close(x, from + 1)
    }
}

/// `{x}r` is hashed as `x` up to its first `}`.
proof fn lemma_tagged_hashes(x: Seq<u8>, r: Seq<u8>, c: int)
    requires
        1 <= c <= x.len(),
        forall|j: int| 0 <= j < c ==> x[j] != close_brace(),
        c < x.len() ==> x[c] == close_brace(),
    ensures
        hashed_part(tagged(x, r)) == x.subrange(0, c),
{
    let k = tagged(x, r);
    assert(k[0] == open_brace());
    assert(k[c + 1] == close_brace());
    assert forall|j: int| 0 < j < c + 1 implies k[j] != close_brace() by {
        assert(k[j] == x[j - 1]);
    }
    assert(is_tag_span(k, 0, c + 1));
    lemma_hashed_part_of_span(k, 0, c + 1);
    assert(k.subrange(1, c + 1) =~= x.subrange(0, c));
}

/// The key `{x}rest` is in the slot of the key `x`, where `x` is not empty
/// and holds no `}`.
pub proof fn lemma_tagged_key_slot_of_tag(x: Seq<u8>, rest: Seq<u8>)
    requires
        x.len() > 0,
        forall|i: int| 0 <= i < x.len() ==> x[i] != close_brace(),
    ensures
        key_slot(tagged(x, rest)) == key_slot(x),
{
    lemma_tagged_hashes(x, rest, x.len() as int);
    assert(x.subrange(0, x.len() as int) =~= x);
    assert(!has_tag(x)) by {
        if has_tag(x) {
            let (o, c) = choose|o: int, c: int| is_tag_span(x, o, c);
            assert(x[c] == close_brace());
        }
    }
}

proof fn lemma_tag_span_unique(k: Seq<u8>, o1: int, c1: int, o2: int, c2: int)
    requires
        is_tag_span(k, o1, c1),
        is_tag_span(k, o2, c2),
    ensures
        o1 == o2,
        c1 == c2,
{
    if o1 < o2 {
        assert(k[o1] != open_brace());
    }
    if o2 < o1 {
        assert(k[o2] != open_brace());
    }
    if c1 < c2 {
        assert(k[c1] != close_brace());
    }
    if c2 < c1 {
        assert(k[c2] != close_brace());
    }
}

proof fn lemma_hashed_part_of_span(k: Seq<u8>, o: int, c: int)
    requires
        is_tag_span(k, o, c),
    ensures
        hashed_part(k) == k.subrange(o + 1, c),
{
    let (o2, c2) = choose|o2: int, c2: int| is_tag_span(k, o2, c2);
    lemma_tag_span_unique(k, o, c, o2, c2);
}

fn crc_shift_exec(c: u16) -> (r: u16)
    ensures
        r == crc_shift(c),
{
    if c & 0x8000u16 != 0 {
        (c << 1u16) ^ 0x1021u16
    } else {
        c << 1u16
    }
}

fn crc_byte_exec(c: u16, b: u8) -> (r: u16)
    ensures
        r == crc_byte(c, b),
{
    let mut x: u16 = c ^ ((b as u16) << 8u16);
    let mut i: u16 = 0;
    while i < 8
        invariant
            i <= 8,
            crc_rounds(x, (8 - i) as nat) == crc_byte(c, b),
        decreases 8 - i,
    {
        x = crc_shift_exec(x);
        i = i + 1;
    }
    x
}

/// CRC-16 of `k[from..to]`.
fn crc16_range(k: &[u8], from: usize, to: usize) -> (r: u16)
    requires
        from <= to <= k@.len(),
    ensures
        r == crc16(k@.subrange(from as int, to as int)),
{
    let mut crc: u16 = 0;
    let mut i: usize = from;
    while i < to
        invariant
            from <= i <= to <= k@.len(),
            crc == crc16(k@.subrange(from as int, i as int)),
        decreases to - i,
    {
        assert(k@.subrange(from as int, i + 1).drop_last() =~= k@.subrange(from as int, i as int));
        crc = crc_byte_exec(crc, k[i]);
        i = i + 1;
    }
    crc
}

/// Index of the first `b` in `k[from..]`, if any.
fn find_byte(k: &[u8], from: usize, b: u8) -> (r: Option<usize>)
    requires
        from <= k@.len(),
    ensures
        match r {
            Some(i) => from <= i < k@.len() && k@[i as int] == b && forall|j: int|
                from <= j < i ==> k@[j] != b,
            None => forall|j: int| from <= j < k@.len() ==> k@[j] != b,
        },
{
    let mut i: usize = from;
    while i < k.len()
        invariant
            from <= i <= k@.len(),
            forall|j: int| from <= j < i ==> k@[j] != b,
        decreases k@.len() - i,
    {
        if k[i] == b {
            return Some(i);
        }
        i = i + 1;
    }
    None
}

/// The hash slot of a key: CRC-16 of its hash tag (the bytes between the
/// first `{` and the first `}` after it, when at least one byte stands
/// between them) or else of the whole key, modulo 16384.
pub fn hash_slot(key: &[u8]) -> (r: u16)
    ensures
        r == key_slot(key@),
        r < SLOT_COUNT,
{
    let len = key.len();
    let (from, to) = match find_byte(key, 0, 0x7bu8) {
        None => {
            assert(!has_tag(key@));
            (0, len)
        },
        Some(o) => match find_byte(key, o + 1, 0x7du8) {
            Some(c) => {
                if c == o + 1 {
                    assert forall|o2: int, c2: int| !is_tag_span(key@, o2, c2) by {
                        if is_tag_span(key@, o2, c2) {
                            if o2 < o {
                                assert(key@[o2] != open_brace());
                            }
                            if o < o2 {
                                assert(key@[o as int] != open_brace());
                            }
                        }
                    }
                    (0, len)
                } else {
                    assert(is_tag_span(key@, o as int, c as int));
                    proof {
                        lemma_hashed_part_of_span(key@, o as int, c as int);
                    }
                    (o + 1, c)
                }
            },
            None => {
                assert forall|o2: int, c2: int| !is_tag_span(key@, o2, c2) by {
                    if is_tag_span(key@, o2, c2) {
                        if o2 < o {
                            assert(key@[o2] != open_brace());
                        }
                        if o < o2 {
                            assert(key@[o as int] != open_brace());
                        }
                        assert(key@[c2] != close_brace());
                    }
                }
                (0, len)
            },
        },
    };
    proof {
        if from == 0 && to == len {
            assert(key@.subrange(0, len as int) =~= key@);
        }
    }
    let crc = crc16_range(key, from, to);
    crc % 16384
}

} // verus!
