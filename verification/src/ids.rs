//! Fresh identifiers for windows and actions that arrive without a usable id.
//!
//! A token is the lower-case hex form of the current time in nanoseconds
//! followed by that of a per-process sequence number. The clock alone can
//! repeat when its resolution is coarse; the sequence number keeps tokens of
//! one process apart.
use vstd::prelude::*;
use crate::text::push_char;

verus! {

#[verifier::external_type_specification]
#[verifier::external_body]
pub struct ExSystemTime(std::time::SystemTime);

#[verifier::external_type_specification]
#[verifier::external_body]
pub struct ExSystemTimeError(std::time::SystemTimeError);

/// `SystemTime::now`: the current wall-clock time. Nothing is claimed of it.
#[verifier::external_body]
fn system_now() -> std::time::SystemTime {
    std::time::SystemTime::now()
}

/// `SystemTime::duration_since(UNIX_EPOCH)`: the time elapsed since the Unix
/// epoch, or an error for a clock set before it. Nothing is claimed of it.
#[verifier::external_body]
fn since_unix_epoch(t: &std::time::SystemTime) -> Result<
    std::time::Duration,
    std::time::SystemTimeError,
> {
    t.duration_since(std::time::UNIX_EPOCH)
}

/// `Duration::as_nanos`: the whole duration in nanoseconds. No contract: a
/// `Duration` has no model here.
#[verifier::external_body]
fn duration_nanos(d: &std::time::Duration) -> u128 {
    d.as_nanos()
}

pub open spec fn hex_table() -> Seq<char> {
    seq!['0', '1', '2', '3', '4', '5', '6', '7', '8', '9', 'a', 'b', 'c', 'd', 'e', 'f']
}

/// The lower-case hexadecimal digits of `n`, most significant first, as
/// `format!("{:x}", n)` writes them.
pub open spec fn hex(n: nat) -> Seq<char>
    decreases n,
{
    if n < 16 {
        seq![hex_table()[n as int]]
    } else {
        hex(n / 16).push(hex_table()[(n % 16) as int])
    }
}

pub open spec fn is_hex_char(c: char) -> bool {
    ('0' as u32 <= c as u32 <= '9' as u32) || ('a' as u32 <= c as u32 <= 'f' as u32)
}

/// A non-empty run of lower-case hexadecimal digits.
pub open spec fn is_token(s: Seq<char>) -> bool {
    s.len() > 0 && forall|i: int| 0 <= i < s.len() ==> is_hex_char(#[trigger] s[i])
}

pub proof fn lemma_hex_is_token(n: nat)
    ensures
        is_token(hex(n)),
    decreases n,
{
    if n >= 16 {
        lemma_hex_is_token(n / 16);
        let h = hex(n / 16);
        assert forall|i: int| 0 <= i < hex(n).len() implies is_hex_char(#[trigger] hex(n)[i]) by {
            if i < h.len() {
                assert(hex(n)[i] == h[i]);
            }
        }
    }
}

pub proof fn lemma_tokens_concat(a: Seq<char>, b: Seq<char>)
    requires
        is_token(a),
        is_token(b),
    ensures
        is_token(a + b),
{
    assert forall|i: int| 0 <= i < (a + b).len() implies is_hex_char(#[trigger] (a + b)[i]) by {
        if i < a.len() {
            assert((a + b)[i] == a[i]);
        } else {
            assert((a + b)[i] == b[i - a.len()]);
        }
    }
}

/// The character code of hex digit `d`: `'0'..='9'`, then `'a'..='f'`.
pub open spec fn digit_code(d: int) -> int {
    if d < 10 {
        48 + d
    } else {
        87 + d
    }
}

pub proof fn lemma_hex_table_codes(d: int)
    requires
        0 <= d < 16,
    ensures
        hex_table()[d] as u32 == digit_code(d),
{
    let t = hex_table();
    if d < 8 {
        if d < 4 {
            if d == 0 {
                assert(t[0] == '0');
            } else if d == 1 {
                assert(t[1] == '1');
            } else if d == 2 {
                assert(t[2] == '2');
            } else {
                assert(t[3] == '3');
            }
        } else {
            if d == 4 {
                assert(t[4] == '4');
            } else if d == 5 {
                assert(t[5] == '5');
            } else if d == 6 {
                assert(t[6] == '6');
            } else {
                assert(t[7] == '7');
            }
        }
    } else {
        if d < 12 {
            if d == 8 {
                assert(t[8] == '8');
            } else if d == 9 {
                assert(t[9] == '9');
            } else if d == 10 {
                assert(t[10] == 'a');
            } else {
                assert(t[11] == 'b');
            }
        } else {
            if d == 12 {
                assert(t[12] == 'c');
            } else if d == 13 {
                assert(t[13] == 'd');
            } else if d == 14 {
                assert(t[14] == 'e');
            } else {
                assert(t[15] == 'f');
            }
        }
    }
}

/// Different digits are written with different characters.
pub proof fn lemma_hex_digits_distinct(a: int, b: int)
    requires
        0 <= a < 16,
        0 <= b < 16,
        a != b,
    ensures
        hex_table()[a] != hex_table()[b],
{
    lemma_hex_table_codes(a);
    lemma_hex_table_codes(b);
}

/// The last hex digit of `n` is the digit of `n % 16`.
pub proof fn lemma_hex_last(n: nat)
    ensures
        hex(n).len() > 0,
        hex(n).last() == hex_table()[(n % 16) as int],
{
}

/// Two texts that end in the hex forms of numbers with different last
/// digits are different, whatever comes before.
pub proof fn lemma_hex_endings_differ(p: Seq<char>, q: Seq<char>, a: nat, b: nat)
    requires
        a % 16 != b % 16,
    ensures
        p + hex(a) != q + hex(b),
{
    lemma_hex_last(a);
    lemma_hex_last(b);
    lemma_hex_digits_distinct((a % 16) as int, (b % 16) as int);
    let x = p + hex(a);
    let y = q + hex(b);
    assert(x.last() == hex(a).last());
    assert(y.last() == hex(b).last());
}

fn hex_digit(d: u128) -> (c: char)
    requires
        d < 16,
    ensures
        c == hex_table()[d as int],
{
    let table: [char; 16] = [
        '0', '1', '2', '3', '4', '5', '6', '7', '8', '9', 'a', 'b', 'c', 'd', 'e', 'f',
    ];
    assert(table@ =~= hex_table());
    table[d as usize]
}

/// Appends the hexadecimal digits of `n`.
pub fn push_hex(s: &mut String, n: u128)
    ensures
        final(s)@ == old(s)@ + hex(n as nat),
    decreases n,
{
    if n >= 16 {
        push_hex(s, n / 16);
    }
    push_char(s, hex_digit(n % 16));
    assert(final(s)@ =~= old(s)@ + hex(n as nat));
}

/// The sequence number that tells the tokens of one process apart.
pub struct IdSeq {
    pub next: u64,
}

impl View for IdSeq {
    type V = u64;

    open spec fn view(&self) -> u64 {
        self.next
    }
}

/// The counter after one step: it wraps around as an atomic `fetch_add` does.
pub open spec fn seq_after(n: u64) -> u64 {
    if n == u64::MAX {
        0
    } else {
        (n + 1) as u64
    }
}

impl IdSeq {
    pub fn new() -> (r: IdSeq)
        ensures
            r@ == 0,
    {
        IdSeq { next: 0 }
    }

    /// A fresh token: the clock reading in nanoseconds (0 when the clock is
    /// before the Unix epoch) in hex, then the current sequence number in
    /// hex; the sequence number moves on by one.
    pub fn uuid_like(&mut self) -> (s: String)
        ensures
            exists|t: u128| s@ == hex(t as nat) + hex(old(self)@ as nat),
            is_token(s@),
            final(self)@ == seq_after(old(self)@),
    {
        let now = system_now();
        let nanos: u128 = match since_unix_epoch(&now) {
            Ok(d) => duration_nanos(&d),
            Err(_) => 0,
        };
        let seq = self.next;
        self.next = if seq == u64::MAX {
            0
        } else {
            seq + 1
        };
        let mut s = String::new();
        push_hex(&mut s, nanos);
        push_hex(&mut s, seq as u128);
        proof {
            assert(s@ =~= hex(nanos as nat) + hex(seq as nat));
            lemma_hex_is_token(nanos as nat);
            lemma_hex_is_token(seq as nat);
            lemma_tokens_concat(hex(nanos as nat), hex(seq as nat));
            assert(seq == old(self)@);
            assert(s@ == hex(nanos as nat) + hex(old(self)@ as nat));
        }
        s
    }
}

} // verus!
