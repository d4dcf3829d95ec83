//! Display helpers: a byte count with a binary unit, and the date and time
//! parts of ISO-8601 timestamps.

use vstd::prelude::*;
use crate::digits::{dec_string, push_char, push_two_digits, spec_dec, spec_two_digits};

verus! {

pub const KB: u64 = 1024;

pub const MB: u64 = 1024 * 1024;

pub const GB: u64 = 1024 * 1024 * 1024;

/// The index of the first occurrence of `c` in `s`, or the length of `s`
/// when `c` does not occur.
pub open spec fn first_at(s: Seq<char>, c: char) -> int
    decreases s.len(),
{
    if s.len() == 0 {
        0
    } else if s[0] == c {
        0
    } else {
        1 + first_at(s.drop_first(), c)
    }
}

/// What pins `first_at` down: nothing before it matches, and it points at a
/// match unless it is the length.
proof fn lemma_first_at(s: Seq<char>, c: char, i: int)
    requires
        0 <= i <= s.len(),
        forall|k: int| 0 <= k < i ==> s[k] != c,
        i < s.len() ==> s[i] == c,
    ensures
        first_at(s, c) == i,
    decreases s.len(),
{
    if s.len() == 0 {
    } else if s[0] == c {
        assert(i == 0);
    } else {
        let dl = s.drop_first();
        assert(forall|k: int| 0 <= k < i - 1 ==> dl[k] != c);
        lemma_first_at(dl, c, i - 1);
    }
}

/// The position of the first `c` in `s`, or the character count of `s`
/// when there is none.
pub fn find_char(s: &str, c: char) -> (i: usize)
    ensures
        i == first_at(s@, c),
        i <= s@.len(),
{
    let n = s.unicode_len();
    let mut i: usize = 0;
    while i < n
        invariant
            i <= n,
            n == s@.len(),
            forall|k: int| 0 <= k < i ==> s@[k] != c,
        decreases n - i,
    {
        if s.get_char(i) == c {
            proof {
                lemma_first_at(s@, c, i as int);
            }
            return i;
        }
        i = i + 1;
    }
    proof {
        lemma_first_at(s@, c, i as int);
    }
    i
}

/// The date part of an expiry timestamp: everything before the first `'T'`,
/// or the whole text when there is none.
pub open spec fn spec_format_expires(s: Seq<char>) -> Seq<char> {
    s.take(first_at(s, 'T'))
}

/// The displayed expiry of a record: the date part of its timestamp.
pub fn format_expires(expires_at: &str) -> (r: String)
    ensures
        r@ == spec_format_expires(expires_at@),
{
    let t = find_char(expires_at, 'T');
    let part = expires_at.substring_char(0, t);
    String::from_str(part)
}

/// A timestamp shown as its date and time: the part before the first
/// `'T'`, the word between, and the part after that `'T'` cut at the next
/// `'T'` and at the first `'.'`; a text without `'T'` stands unchanged.
pub open spec fn spec_format_datetime(s: Seq<char>) -> Seq<char> {
    let t = first_at(s, 'T');
    if t == s.len() {
        s
    } else {
        let date = s.take(t);
        let after = s.skip(t + 1);
        let seg = after.take(first_at(after, 'T'));
        let time = seg.take(first_at(seg, '.'));
        date + " \u{e0}s "@ + time
    }
}

/// The displayed form of a full timestamp.
pub fn format_datetime(datetime: &str) -> (r: String)
    ensures
        r@ == spec_format_datetime(datetime@),
{
    let n = datetime.unicode_len();
    let t = find_char(datetime, 'T');
    if t >= n {
        String::from_str(datetime)
    } else {
        let date = datetime.substring_char(0, t);
        let after = datetime.substring_char(t + 1, n);
        let t2 = find_char(after, 'T');
        let seg = after.substring_char(0, t2);
        let dot = find_char(seg, '.');
        let time = seg.substring_char(0, dot);
        let mut out = String::from_str(date);
        out.append(" \u{e0}s ");
        out.append(time);
        proof {
            assert(out@ =~= spec_format_datetime(datetime@));
        }
        out
    }
}

/// The displayed hundredths when `b` is shown in units of `unit`: the
/// quotient `b / unit`, times one hundred, rounded half up.
pub open spec fn spec_scaled(b: nat, unit: nat) -> nat {
    (b * 200 / unit + 1) / 2
}

/// A whole number of hundredths as a decimal with two places.
pub open spec fn spec_hundredths_text(h: nat) -> Seq<char> {
    spec_dec(h / 100) + seq!['.'] + spec_two_digits(h % 100)
}

/// A byte count for display: two decimal places of the largest binary unit
/// it reaches, or the plain count below one kibibyte.
pub open spec fn spec_format_bytes(b: nat) -> Seq<char> {
    if b >= GB {
        spec_hundredths_text(spec_scaled(b, GB as nat)) + " GB"@
    } else if b >= MB {
        spec_hundredths_text(spec_scaled(b, MB as nat)) + " MB"@
    } else if b >= KB {
        spec_hundredths_text(spec_scaled(b, KB as nat)) + " KB"@
    } else {
        spec_dec(b) + " bytes"@
    }
}

/// Appends `h` hundredths as a decimal with two places.
fn push_hundredths(out: &mut String, h: u64)
    ensures
        final(out)@ == old(out)@ + spec_hundredths_text(h as nat),
{
    let whole = dec_string(h / 100);
    out.append(whole.as_str());
    push_char(out, '.');
    push_two_digits(out, h % 100);
    proof {
        assert(old(out)@ + spec_hundredths_text(h as nat) =~= old(out)@ + spec_dec(
            (h / 100) as nat,
        ) + seq!['.'] + spec_two_digits((h % 100) as nat));
    }
}

/// The displayed size of a file.
pub fn format_bytes(bytes: u64) -> (r: String)
    ensures
        r@ == spec_format_bytes(bytes as nat),
{
    let mut out = String::new();
    if bytes >= GB {
        let h = (((bytes as u128) * 200 / 0x4000_0000u128 + 1) / 2) as u64;
        proof {
            assert(h == spec_scaled(bytes as nat, GB as nat));
        }
        push_hundredths(&mut out, h);
        out.append(" GB");
    } else if bytes >= MB {
        let h = (((bytes as u128) * 200 / 0x10_0000u128 + 1) / 2) as u64;
        proof {
            assert(h == spec_scaled(bytes as nat, MB as nat));
        }
        push_hundredths(&mut out, h);
        out.append(" MB");
    } else if bytes >= KB {
        let h = (((bytes as u128) * 200 / 0x400u128 + 1) / 2) as u64;
        proof {
            assert(h == spec_scaled(bytes as nat, KB as nat));
        }
        push_hundredths(&mut out, h);
        out.append(" KB");
    } else {
        let whole = dec_string(bytes);
        out.append(whole.as_str());
        out.append(" bytes");
    }
    proof {
        assert(out@ =~= spec_format_bytes(bytes as nat));
    }
    out
}

} // verus!
