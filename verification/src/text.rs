use vstd::prelude::*;

verus! {

/// What `str::to_lowercase` makes of a text (Unicode lowercase mapping).
pub uninterp spec fn lowercase(s: Seq<char>) -> Seq<char>;

/// Calls `str::to_lowercase` and hands back the characters of the result.
/// Claims only that the result is the lowercase mapping of the argument,
/// which depends on the argument alone.
#[verifier::external_body]
pub(crate) fn lower_chars(s: &str) -> (r: Vec<char>)
    ensures
        r@ == lowercase(s@),
{
    s.to_lowercase().chars().collect()
}

/// `needle` occurs in `hay` as a contiguous run.
pub open spec fn has_run(hay: Seq<char>, needle: Seq<char>) -> bool {
    exists|i: int| 0 <= i <= hay.len() - needle.len() && #[trigger] hay.subrange(i, i + needle.len()) == needle
}

/// Whether `needle` occurs in `hay` as a contiguous run.
pub fn contains_run(hay: &Vec<char>, needle: &Vec<char>) -> (r: bool)
    ensures
        r == has_run(hay@, needle@),
{
    if needle.len() > hay.len() {
        return false;
    }
    let last = hay.len() - needle.len();
    let mut i: usize = 0;
    while i <= last
        invariant
            last == hay.len() - needle.len(),
            i <= last + 1,
            forall|j: int| 0 <= j < i ==> #[trigger] hay@.subrange(j, j + needle.len()) != needle@,
        decreases last + 1 - i,
    {
        let mut k: usize = 0;
        let mut same = true;
        while k < needle.len()
            invariant
                last == hay.len() - needle.len(),
                i <= last,
                k <= needle.len(),
                same == (forall|m: int| 0 <= m < k ==> hay@[i + m] == needle@[m]),
            decreases needle.len() - k,
        {
            if hay[i + k] != needle[k] {
                same = false;
            }
            k += 1;
        }
        if same {
            assert(hay@.subrange(i as int, i + needle.len()) =~= needle@);
            return true;
        }
        proof {
            assert(hay@.subrange(i as int, i + needle.len()) != needle@) by {
                let m = choose|m: int| 0 <= m < needle.len() && hay@[i + m] != needle@[m];
                assert(hay@.subrange(i as int, i + needle.len())[m] == hay@[i + m]);
            }
        }
        i += 1;
    }
    proof {
        assert forall|j: int| 0 <= j <= hay.len() - needle.len() implies #[trigger] hay@.subrange(
            j,
            j + needle.len(),
        ) != needle@ by {}
    }
    false
}


/// Calls `String::push`: the character is added at the end.
#[verifier::external_body]
pub(crate) fn push_char(s: &mut String, c: char)
    ensures
        final(s)@ == old(s)@.push(c),
{
    s.push(c);
}

/// Calls `String::pop`: the last character, if any, is removed and returned.
#[verifier::external_body]
pub(crate) fn pop_char(s: &mut String) -> (r: Option<char>)
    ensures
        old(s)@.len() == 0 ==> r is None && final(s)@ == old(s)@,
        old(s)@.len() > 0 ==> r == Some(old(s)@.last()) && final(s)@ == old(s)@.drop_last(),
{
    s.pop()
}

/// The decimal digit for `d` (0 to 9).
pub open spec fn digit_char(d: int) -> char {
    if d == 0 {
        '0'
    } else if d == 1 {
        '1'
    } else if d == 2 {
        '2'
    } else if d == 3 {
        '3'
    } else if d == 4 {
        '4'
    } else if d == 5 {
        '5'
    } else if d == 6 {
        '6'
    } else if d == 7 {
        '7'
    } else if d == 8 {
        '8'
    } else {
        '9'
    }
}

/// The decimal notation of `n`, without leading zeros.
pub open spec fn decimal(n: nat) -> Seq<char>
    decreases n,
{
    if n < 10 {
        seq![digit_char(n as int)]
    } else {
        decimal(n / 10).push(digit_char((n % 10) as int))
    }
}

fn digit(d: u64) -> (c: char)
    requires
        d < 10,
    ensures
        c == digit_char(d as int),
{
    match d {
        0 => '0',
        1 => '1',
        2 => '2',
        3 => '3',
        4 => '4',
        5 => '5',
        6 => '6',
        7 => '7',
        8 => '8',
        _ => '9',
    }
}

/// Writes `n` in decimal (as `to_string` does for integers).
pub fn decimal_string(n: u64) -> (r: String)
    ensures
        r@ == decimal(n as nat),
{
    // the digits, last first
    let mut rev: Vec<char> = Vec::new();
    let mut m = n;
    proof {
        assert(decimal(n as nat) =~= decimal(m as nat) + rev@.reverse());
    }
    loop
        invariant_except_break
            decimal(n as nat) == decimal(m as nat) + rev@.reverse(),
        ensures
            decimal(n as nat) == rev@.reverse(),
        decreases m,
    {
        let d = digit(m % 10);
        let ghost r0 = rev@;
        rev.push(d);
        proof {
            assert(rev@.reverse() =~= seq![d] + r0.reverse());
            if m >= 10 {
                assert(decimal(m as nat) == decimal((m / 10) as nat).push(d));
                assert(decimal((m / 10) as nat).push(d) + r0.reverse() =~= decimal((m / 10) as nat)
                    + rev@.reverse());
            } else {
                assert(decimal(m as nat) =~= seq![d]);
            }
        }
        m = m / 10;
        if m == 0 {
            break;
        }
    }
    let mut out = String::new();
    let mut i = rev.len();
    while i > 0
        invariant
            i <= rev.len(),
            out@ == rev@.subrange(i as int, rev.len() as int).reverse(),
        decreases i,
    {
        i -= 1;
        push_char(&mut out, rev[i]);
        proof {
            assert(rev@.subrange(i as int, rev.len() as int) =~= seq![rev@[i as int]] + rev@.subrange(
                i + 1,
                rev.len() as int,
            ));
            assert(rev@.subrange(i as int, rev.len() as int).reverse() =~= rev@.subrange(
                i + 1,
                rev.len() as int,
            ).reverse().push(rev@[i as int]));
        }
    }
    proof {
        assert(rev@.subrange(0, rev.len() as int) =~= rev@);
    }
    out
}

/// An uptime of `secs` seconds as shown in the header: days and hours
/// (`3d 14h`) when it is a day or more, hours and minutes (`5h 12m`) when it
/// is an hour or more, else minutes (`12m`).
pub open spec fn uptime_text(secs: nat) -> Seq<char> {
    let days = secs / 86400;
    let hours = (secs % 86400) / 3600;
    let minutes = (secs % 3600) / 60;
    if days > 0 {
        decimal(days) + "d "@ + decimal(hours) + "h"@
    } else if hours > 0 {
        decimal(hours) + "h "@ + decimal(minutes) + "m"@
    } else {
        decimal(minutes) + "m"@
    }
}

/// Formats an uptime given in seconds (see `uptime_text`).
pub fn format_uptime(secs: u64) -> (r: String)
    ensures
        r@ == uptime_text(secs as nat),
{
    let days = secs / 86_400;
    let hours = (secs % 86_400) / 3_600;
    let minutes = (secs % 3_600) / 60;
    if days > 0 {
        let d = decimal_string(days);
        let h = decimal_string(hours);
        d.concat("d ").concat(h.as_str()).concat("h")
    } else if hours > 0 {
        let h = decimal_string(hours);
        let m = decimal_string(minutes);
        h.concat("h ").concat(m.as_str()).concat("m")
    } else {
        decimal_string(minutes).concat("m")
    }
}

/// A text cut to at most `max` characters: unchanged when it fits, else its
/// first `max - 1` characters (none when `max` is 0) followed by `…`.
pub open spec fn truncated(t: Seq<char>, max: nat) -> Seq<char> {
    if t.len() <= max {
        t
    } else {
        t.take(if max > 0 { max - 1 } else { 0 }) + "…"@
    }
}

/// Cuts a text to at most `max` characters, marking a cut with `…` (see
/// `truncated`).
pub fn truncate(t: &str, max: usize) -> (r: String)
    ensures
        r@ == truncated(t@, max as nat),
{
    let n = t.unicode_len();
    if n <= max {
        text(t)
    } else {
        let keep = if max > 0 { max - 1 } else { 0 };
        let kept = t.substring_char(0, keep);
        proof {
            assert(kept@ =~= t@.take(keep as int));
        }
        text(kept).concat("…")
    }
}

/// The number a decimal digit stands for.
pub open spec fn digit_value(c: char) -> int {
    (c as int) - ('0' as int)
}

/// The number that a string of decimal digits stands for, read left to
/// right.
pub open spec fn digits_value(s: Seq<char>) -> int
    decreases s.len(),
{
    if s.len() == 0 {
        0
    } else {
        digits_value(s.drop_last()) * 10 + digit_value(s.last())
    }
}

proof fn lemma_digit_value(d: int)
    requires
        0 <= d < 10,
    ensures
        digit_value(digit_char(d)) == d,
        '0' <= digit_char(d) <= '9',
        d > 0 ==> digit_char(d) != '0',
{
}

/// The decimal notation of `n` reads back as `n`: it is a non-empty string
/// of digits, standing for `n`, with no leading zero.
pub proof fn lemma_decimal_reads_back(n: nat)
    ensures
        decimal(n).len() > 0,
        forall|i: int| 0 <= i < decimal(n).len() ==> '0' <= #[trigger] decimal(n)[i] <= '9',
        digits_value(decimal(n)) == n,
        n > 0 ==> decimal(n)[0] != '0',
    decreases n,
{
    lemma_digit_value((n % 10) as int);
    if n < 10 {
        assert(decimal(n).drop_last() =~= Seq::<char>::empty());
        assert(digits_value(Seq::<char>::empty()) == 0);
        assert(decimal(n).last() == digit_char(n as int));
    } else {
        lemma_decimal_reads_back(n / 10);
        let d = decimal(n / 10);
        let c = digit_char((n % 10) as int);
        assert(decimal(n) == d.push(c));
        assert(d.push(c).drop_last() =~= d);
        assert(digits_value(decimal(n)) == digits_value(d) * 10 + digit_value(c));
        assert(digit_value(c) == n % 10);
        assert((n / 10) * 10 + n % 10 == n);
        assert(d.push(c)[0] == d[0]);
        assert forall|i: int| 0 <= i < decimal(n).len() implies '0' <= #[trigger] decimal(n)[i] <= '9' by {
            if i < d.len() {
                assert(decimal(n)[i] == d[i]);
            }
        }
    }
}

/// An uptime under an hour reads as whole minutes, one under a day as
/// whole hours and the minutes past the hour, a longer one as whole days
/// and the hours past the day.
pub proof fn lemma_uptime_parts(secs: nat)
    ensures
        secs < 3600 ==> uptime_text(secs) == decimal(secs / 60) + "m"@,
        3600 <= secs < 86400 ==> uptime_text(secs) == decimal(secs / 3600) + "h "@ + decimal(
            ((secs - (secs / 3600) * 3600) / 60) as nat,
        ) + "m"@,
        86400 <= secs ==> uptime_text(secs) == decimal(secs / 86400) + "d "@ + decimal(
            ((secs - (secs / 86400) * 86400) / 3600) as nat,
        ) + "h"@,
{
}

/// A cut text: a text that fits is kept whole; one that does not keeps its
/// first `max - 1` characters and ends in `…`, `max` characters in all (just
/// `…` when `max` is 0).
pub proof fn lemma_truncated_shape(t: Seq<char>, max: nat)
    ensures
        t.len() <= max ==> truncated(t, max) == t,
        t.len() > max && max > 0 ==> {
            &&& truncated(t, max).len() == max
            &&& truncated(t, max).take(max - 1) == t.take(max - 1)
            &&& truncated(t, max)[max - 1] == '…'
        },
        t.len() > max && max == 0 ==> truncated(t, max) == seq!['…'],
{
    reveal_strlit("…");
    if t.len() > max {
        let k: int = if max > 0 { max - 1 } else { 0 };
        assert(truncated(t, max) == t.take(k) + "…"@);
        assert((t.take(k) + "…"@).take(k) =~= t.take(k));
        if max == 0 {
            assert(t.take(0) + "…"@ =~= seq!['…']);
        }
    }
}

/// An owned copy of a text.
pub(crate) fn text(lit: &str) -> (r: String)
    ensures
        r@ == lit@,
{
    lit.to_owned()
}

} // verus!
