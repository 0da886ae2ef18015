use vstd::prelude::*;

verus! {

/// The two kinds of redirection a node may answer with.
#[derive(Debug, PartialEq, Eq, Clone, Copy)]
pub enum RedirectKind {
    /// `MOVED`: the slot has a new owner for good.
    Moved,
    /// `ASK`: the slot is migrating; the next request must follow `ASKING`.
    Ask,
}

/// A redirection read from an error reply.
#[derive(Debug)]
pub struct Redirect {
    pub kind: RedirectKind,
    /// The `host:port` token, verbatim.
    pub address: String,
}

/// Index of the first space of `s` at or after `from`, or `s.len()`.
pub open spec fn next_space(s: Seq<char>, from: int) -> int
    decreases s.len() - from,
{
    if from < 0 || from >= s.len() {
        s.len() as int
    } else if s[from] == ' ' {
        from
    } else {
        next_space(s, from + 1)
    }
}

pub open spec fn is_digit(c: char) -> bool {
    '0' <= c && c <= '9'
}

pub open spec fn digit_value(c: char) -> nat {
    (c as u32 - '0' as u32) as nat
}

/// The number written by the decimal digits `s`.
pub open spec fn decimal_value(s: Seq<char>) -> nat
    decreases s.len(),
{
    if s.len() == 0 {
        0
    } else {
        decimal_value(s.drop_last()) * 10 + digit_value(s.last())
    }
}

/// One to five decimal digits naming a number up to 65535.
pub open spec fn is_port(p: Seq<char>) -> bool {
    &&& 1 <= p.len() <= 5
    &&& forall|i: int| 0 <= i < p.len() ==> is_digit(#[trigger] p[i])
    &&& decimal_value(p) <= 65535
}

/// `a` is `host:port`: a colon followed by a port up to the end.
pub open spec fn is_address(a: Seq<char>) -> bool {
    exists|c: int| 0 <= c < a.len() && a[c] == ':' && is_port(#[trigger] a.subrange(c + 1, a.len() as int))
}

/// The redirection that the error text `e` carries: its first three
/// space-separated tokens are `MOVED` or `ASK`, a slot, and an address.
pub open spec fn redirect_of(e: Seq<char>) -> Option<(RedirectKind, Seq<char>)> {
    let i1 = next_space(e, 0);
    let i2 = next_space(e, i1 + 1);
    let i3 = next_space(e, i2 + 1);
    let first = e.subrange(0, i1);
    let addr = e.subrange(i2 + 1, i3);
    if i2 >= e.len() || !is_address(addr) {
        None
    } else if first == "MOVED"@ {
        Some((RedirectKind::Moved, addr))
    } else if first == "ASK"@ {
        Some((RedirectKind::Ask, addr))
    } else {
        None
    }
}

proof fn lemma_next_space_bounds(s: Seq<char>, from: int)
    requires
        0 <= from,
    ensures
        from <= next_space(s, from) <= s.len() || (from > s.len() && next_space(s, from) == s.len()),
        next_space(s, from) < s.len() ==> s[next_space(s, from)] == ' ',
        forall|j: int| from <= j < next_space(s, from) ==> s[j] != ' ',
    decreases s.len() - from,
{
    if from < s.len() && s[from] != ' ' {
        lemma_next_space_bounds(s, from + 1);
    }
}

/// See `next_space`.
fn find_space(s: &str, from: usize, len: usize) -> (r: usize)
    requires
        len == s@.len(),
        from <= len,
    ensures
        r == next_space(s@, from as int),
        from <= r <= len,
{
    let mut i: usize = from;
    while i < len
        invariant
            from <= i <= len == s@.len(),
            next_space(s@, i as int) == next_space(s@, from as int),
        decreases len - i,
    {
        if s.get_char(i) == ' ' {
            return i;
        }
        i = i + 1;
    }
    i
}

pub open spec fn pow10(n: nat) -> nat
    decreases n,
{
    if n == 0 {
        1
    } else {
        10 * pow10((n - 1) as nat)
    }
}

/// Whether `a` is `host:port`, see `is_address`.
fn check_address(a: &str) -> (r: bool)
    ensures
        r == is_address(a@),
{
    let len = a.unicode_len();
    let mut j: usize = len;
    while j > 0 && is_digit_char(a.get_char(j - 1))
        invariant
            j <= len == a@.len(),
            forall|i: int| j <= i < len ==> is_digit(#[trigger] a@[i]),
        decreases j,
    {
        j = j - 1;
    }
    let ghost s = a@;
    if j == 0 || a.get_char(j - 1) != ':' || len - j < 1 || len - j > 5 {
        proof {
            assert forall|c: int| 0 <= c < s.len() && s[c] == ':' implies !is_port(
                #[trigger] s.subrange(c + 1, s.len() as int),
            ) by {
                let p = s.subrange(c + 1, s.len() as int);
                if is_port(p) {
                    if c < j - 1 {
                        assert(p[j - 1 - (c + 1)] == s[j - 1]);
                    } else if c >= j {
                        assert(is_digit(s[c]));
                    }
                }
            }
        }
        return false;
    }
    let ghost c: int = j - 1;
    let ghost p = s.subrange(c + 1, s.len() as int);
    let mut v: u32 = 0;
    let mut i: usize = j;
    while i < len
        invariant
            j <= i <= len == s.len(),
            len - j <= 5,
            s == a@,
            forall|k: int| j <= k < len ==> is_digit(#[trigger] s[k]),
            v == decimal_value(s.subrange(j as int, i as int)),
            v < pow10((i - j) as nat),
        decreases len - i,
    {
        let ch = a.get_char(i);
        let d: u32 = ch as u32 - '0' as u32;
        proof {
            let t = s.subrange(j as int, i as int + 1);
            assert(t.drop_last() =~= s.subrange(j as int, i as int));
            assert(is_digit(s[i as int]));
            assert(pow10((i + 1 - j) as nat) == 10 * pow10((i - j) as nat));
            lemma_pow10_mono((i + 1 - j) as nat, 5);
            reveal_with_fuel(pow10, 6);
            assert(pow10(5) == 100000);
            assert(v * 10 + d < pow10((i + 1 - j) as nat)) by (nonlinear_arith)
                requires
                    v < pow10((i - j) as nat),
                    d < 10,
                    pow10((i + 1 - j) as nat) == 10 * pow10((i - j) as nat),
            ;
        }
        v = v * 10 + d;
        i = i + 1;
    }
    proof {
        assert(s.subrange(j as int, len as int) =~= p);
    }
    let r = v <= 65535;
    proof {
        if r {
            assert(is_port(p));
        } else {
            assert forall|c2: int| 0 <= c2 < s.len() && s[c2] == ':' implies !is_port(
                #[trigger] s.subrange(c2 + 1, s.len() as int),
            ) by {
                let p2 = s.subrange(c2 + 1, s.len() as int);
                if c2 < c {
                    assert(p2[c - (c2 + 1)] == s[c]);
                } else if c2 > c {
                    assert(is_digit(s[c2]));
                }
            }
        }
    }
    r
}

proof fn lemma_pow10_mono(a: nat, b: nat)
    requires
        a <= b,
    ensures
        pow10(a) <= pow10(b),
    decreases b,
{
    if a < b {
        lemma_pow10_mono(a, (b - 1) as nat);
    }
}

fn is_digit_char(c: char) -> (r: bool)
    ensures
        r == is_digit(c),
{
    '0' <= c && c <= '9'
}

/// Reads a redirection out of the text of an error reply: `MOVED` or `ASK`,
/// a slot and a `host:port` address, separated by single spaces, with any
/// further tokens ignored. `None` for any other error.
pub fn parse_redirect(e: &str) -> (r: Option<Redirect>)
    ensures
        match redirect_of(e@) {
            Some((kind, addr)) => r is Some && r->0.kind == kind && r->0.address@ == addr,
            None => r is None,
        },
{
    let len = e.unicode_len();
    let i1 = find_space(e, 0, len);
    if i1 >= len {
        return None;
    }
    let i2 = find_space(e, i1 + 1, len);
    if i2 >= len {
        return None;
    }
    let i3 = find_space(e, i2 + 1, len);
    let first = e.substring_char(0, i1);
    let addr = e.substring_char(i2 + 1, i3);
    if !check_address(addr) {
        return None;
    }
    let kind = if same_text(first, "MOVED") {
        RedirectKind::Moved
    } else if same_text(first, "ASK") {
        RedirectKind::Ask
    } else {
        return None;
    };
    Some(Redirect { kind, address: String::from_str(addr) })
}

/// Whether two strings hold the same characters.
pub fn same_text(a: &str, b: &str) -> (r: bool)
    ensures
        r == (a@ == b@),
{
    let n = a.unicode_len();
    if n != b.unicode_len() {
        return false;
    }
    let mut i: usize = 0;
    while i < n
        invariant
            i <= n == a@.len() == b@.len(),
            forall|k: int| 0 <= k < i ==> a@[k] == b@[k],
        decreases n - i,
    {
        if a.get_char(i) != b.get_char(i) {
            return false;
        }
        i = i + 1;
    }
    assert(a@ =~= b@);
    true
}

} // verus!
