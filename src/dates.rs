use vstd::prelude::*;
use crate::text::{push_range, string_of};

verus! {

/// A date and time of day to the minute, as an article declares it.
#[derive(Clone, Copy)]
pub struct Timestamp {
    pub year: i32,
    pub month: u32,
    pub day: u32,
    pub hour: u32,
    pub minute: u32,
}

/// The fields of a timestamp, most significant first.
pub open spec fn fields(t: Timestamp) -> (int, int, int, int, int) {
    (t.year as int, t.month as int, t.day as int, t.hour as int, t.minute as int)
}

/// What chrono's `NaiveDateTime::parse_from_str(s, "%Y-%m-%d %H:%M")` reads from `s`: the
/// fields of the date and time, or `None` where `s` is no such date.
pub uninterp spec fn parsed_timestamp(s: Seq<char>) -> Option<(int, int, int, int, int)>;

/// Relies on chrono's `NaiveDateTime::parse_from_str` with the format `%Y-%m-%d %H:%M`, and on
/// its `Datelike` and `Timelike` getters: the result depends on the text alone, and a valid
/// date has its month in 1..=12, its day in 1..=31, its hour in 0..=23 and its minute in 0..=59.
#[verifier::external_body]
pub(crate) fn parse_timestamp(s: &str) -> (r: Option<Timestamp>)
    ensures
        match r {
            Some(t) => parsed_timestamp(s@) == Some(fields(t)) && 1 <= t.month <= 12 && 1 <= t.day
                <= 31 && t.hour <= 23 && t.minute <= 59,
            None => parsed_timestamp(s@) is None,
        },
{
    match chrono::NaiveDateTime::parse_from_str(s, "%Y-%m-%d %H:%M") {
        Ok(d) => Some(Timestamp {
            year: chrono::Datelike::year(&d),
            month: chrono::Datelike::month(&d),
            day: chrono::Datelike::day(&d),
            hour: chrono::Timelike::hour(&d),
            minute: chrono::Timelike::minute(&d),
        }),
        Err(_) => None,
    }
}

/// Whether `a` comes strictly after `b`.
pub open spec fn later(a: Timestamp, b: Timestamp) -> bool {
    if a.year != b.year {
        a.year > b.year
    } else if a.month != b.month {
        a.month > b.month
    } else if a.day != b.day {
        a.day > b.day
    } else if a.hour != b.hour {
        a.hour > b.hour
    } else {
        a.minute > b.minute
    }
}

/// Whether `a` comes strictly after `b`.
pub fn is_later(a: &Timestamp, b: &Timestamp) -> (r: bool)
    ensures
        r == later(*a, *b),
{
    if a.year != b.year {
        a.year > b.year
    } else if a.month != b.month {
        a.month > b.month
    } else if a.day != b.day {
        a.day > b.day
    } else if a.hour != b.hour {
        a.hour > b.hour
    } else {
        a.minute > b.minute
    }
}

/// The index of the latest timestamp among the first `n` of `stamps`; the first of equal
/// ones wins. `None` where none of them is present.
pub open spec fn latest_among(stamps: Seq<Option<Timestamp>>, n: int) -> Option<int>
    decreases n,
{
    if n <= 0 {
        None
    } else {
        let best = latest_among(stamps, n - 1);
        match stamps[n - 1] {
            None => best,
            Some(t) => match best {
                None => Some(n - 1),
                Some(b) => if later(t, stamps[b]->0) {
                    Some(n - 1)
                } else {
                    best
                },
            },
        }
    }
}

/// The index of the latest of `stamps` (see `latest_among`).
pub open spec fn latest(stamps: Seq<Option<Timestamp>>) -> Option<int> {
    latest_among(stamps, stamps.len() as int)
}

proof fn lemma_later_total(a: Timestamp, b: Timestamp)
    ensures
        !later(a, b) ==> (later(b, a) || fields(a) == fields(b)),
        !(later(a, b) && later(b, a)),
{
}

proof fn lemma_later_trans(a: Timestamp, b: Timestamp, c: Timestamp)
    ensures
        later(a, b) && later(b, c) ==> later(a, c),
        !later(a, b) && !later(b, c) ==> !later(a, c),
{
}

/// The latest of the first `n` stamps is present, none of them is later, and none before
/// it is as late.
pub proof fn lemma_latest_among(stamps: Seq<Option<Timestamp>>, n: int)
    requires
        0 <= n <= stamps.len(),
    ensures
        match latest_among(stamps, n) {
            Some(i) => 0 <= i < n && stamps[i] is Some && (forall|j: int|
                0 <= j < n && #[trigger] stamps[j] is Some ==> !later(stamps[j]->0, stamps[i]->0))
                && (forall|j: int| 0 <= j < i && #[trigger] stamps[j] is Some ==> later(
                stamps[i]->0,
                stamps[j]->0,
            )),
            None => forall|j: int| 0 <= j < n ==> #[trigger] stamps[j] is None,
        },
    decreases n,
{
    if n > 0 {
        lemma_latest_among(stamps, n - 1);
        match latest_among(stamps, n - 1) {
            None => {},
            Some(b) => {
                assert forall|j: int| 0 <= j < n && #[trigger] stamps[j] is Some implies !later(
                    stamps[j]->0,
                    stamps[latest_among(stamps, n)->0]->0,
                ) by {
                    lemma_later_total(stamps[j]->0, stamps[b]->0);
                    lemma_later_total(stamps[n - 1]->0, stamps[b]->0);
                    if stamps[n - 1] is Some {
                        lemma_later_trans(stamps[j]->0, stamps[b]->0, stamps[n - 1]->0);
                        lemma_later_total(stamps[b]->0, stamps[n - 1]->0);
                        lemma_later_total(stamps[j]->0, stamps[n - 1]->0);
                    }
                }
                assert forall|j: int| 0 <= j < latest_among(stamps, n)->0 && #[trigger] stamps[j] is Some implies later(
                    stamps[latest_among(stamps, n)->0]->0,
                    stamps[j]->0,
                ) by {
                    if stamps[n - 1] is Some && later(stamps[n - 1]->0, stamps[b]->0) && j != b {
                        lemma_later_total(stamps[j]->0, stamps[b]->0);
                        lemma_later_trans(stamps[n - 1]->0, stamps[b]->0, stamps[j]->0);
                    }
                }
            },
        }
    }
}

/// The index of the latest present timestamp, the first of equal ones; `None` where none is
/// present. The one chosen is present, no present one is later, and each present one before
/// it is earlier.
pub fn latest_index(stamps: &Vec<Option<Timestamp>>) -> (r: Option<usize>)
    ensures
        r == (match latest(stamps@) {
            Some(i) => Some(i as usize),
            None => None::<usize>,
        }),
        match r {
            Some(i) => i < stamps@.len() && stamps@[i as int] is Some && (forall|j: int|
                0 <= j < stamps@.len() && #[trigger] stamps@[j] is Some ==> !later(
                stamps@[j]->0,
                stamps@[i as int]->0,
            )),
            None => forall|j: int| 0 <= j < stamps@.len() ==> #[trigger] stamps@[j] is None,
        },
{
    let mut best: Option<usize> = None;
    let mut i: usize = 0;
    while i < stamps.len()
        invariant
            i <= stamps@.len(),
            best == (match latest_among(stamps@, i as int) {
                Some(b) => Some(b as usize),
                None => None::<usize>,
            }),
        decreases stamps.len() - i,
    {
        proof {
            lemma_latest_among(stamps@, i as int);
        }
        match &stamps[i] {
            None => {},
            Some(t) => match best {
                None => {
                    best = Some(i);
                },
                Some(b) => {
                    let bt = stamps[b].unwrap();
                    if is_later(t, &bt) {
                        best = Some(i);
                    }
                },
            },
        }
        i += 1;
    }
    proof {
        lemma_latest_among(stamps@, stamps@.len() as int);
    }
    best
}

pub open spec fn digit(n: int) -> char {
    seq!['0', '1', '2', '3', '4', '5', '6', '7', '8', '9'][n % 10]
}

/// The decimal digits of `n`.
pub open spec fn decimal(n: nat) -> Seq<char>
    decreases n,
{
    if n < 10 {
        seq![digit(n as int)]
    } else {
        decimal(n / 10).push(digit((n % 10) as int))
    }
}

/// The decimal digits of `n`, with zeros in front up to `width` characters.
pub open spec fn padded(n: nat, width: nat) -> Seq<char> {
    let d = decimal(n);
    Seq::new((if width > d.len() { width - d.len() } else { 0 }) as nat, |_i: int| '0') + d
}

/// A year as `%Y` writes it: four digits at least, with a sign outside 0..=9999.
pub open spec fn year_text(y: int) -> Seq<char> {
    if 0 <= y <= 9999 {
        padded(y as nat, 4)
    } else if y > 9999 {
        seq!['+'] + padded(y as nat, 4)
    } else {
        seq!['-'] + padded((-y) as nat, 4)
    }
}

/// `t` written as `YYYY-MM-DD HH:MM`.
pub open spec fn timestamp_text(t: Timestamp) -> Seq<char> {
    year_text(t.year as int) + seq!['-'] + padded(t.month as nat, 2) + seq!['-'] + padded(
        t.day as nat,
        2,
    ) + seq![' '] + padded(t.hour as nat, 2) + seq![':'] + padded(t.minute as nat, 2)
}

/// Appends the decimal digits of `n` to `out`.
fn push_decimal(out: &mut Vec<char>, n: u64)
    ensures
        final(out)@ == old(out)@ + decimal(n as nat),
    decreases n,
{
    let ds: Vec<char> = vec!['0', '1', '2', '3', '4', '5', '6', '7', '8', '9'];
    if n >= 10 {
        push_decimal(out, n / 10);
    }
    let d = ds[(n % 10) as usize];
    proof {
        assert(ds@ =~= seq!['0', '1', '2', '3', '4', '5', '6', '7', '8', '9']);
        assert(d == digit((n % 10) as int));
    }
    out.push(d);
    proof {
        assert(out@ =~= old(out)@ + decimal(n as nat));
    }
}

/// Appends the digits of `n`, zero-padded to `width`, to `out`.
fn push_padded(out: &mut Vec<char>, n: u64, width: usize)
    ensures
        final(out)@ == old(out)@ + padded(n as nat, width as nat),
{
    let mut digits: Vec<char> = Vec::new();
    push_decimal(&mut digits, n);
    proof {
        assert(digits@ =~= decimal(n as nat));
    }
    let zeros: usize = if width > digits.len() { width - digits.len() } else { 0 };
    let mut k: usize = 0;
    while k < zeros
        invariant
            k <= zeros,
            out@ == old(out)@ + Seq::new(k as nat, |_i: int| '0'),
        decreases zeros - k,
    {
        out.push('0');
        k += 1;
        proof {
            assert(out@ =~= old(out)@ + Seq::new(k as nat, |_i: int| '0'));
        }
    }
    push_range(out, &digits, 0, digits.len());
    proof {
        assert(digits@.subrange(0, digits@.len() as int) =~= digits@);
        assert(out@ =~= old(out)@ + padded(n as nat, width as nat));
    }
}

/// `t` written as `YYYY-MM-DD HH:MM`, as chrono's `%Y-%m-%d %H:%M` writes it.
pub fn format_timestamp(t: &Timestamp) -> (r: String)
    ensures
        r@ == timestamp_text(*t),
{
    let mut out: Vec<char> = Vec::new();
    if t.year >= 0 && t.year <= 9999 {
        push_padded(&mut out, t.year as u64, 4);
    } else if t.year > 9999 {
        out.push('+');
        push_padded(&mut out, t.year as u64, 4);
    } else {
        out.push('-');
        let y: i64 = t.year as i64;
        push_padded(&mut out, (-y) as u64, 4);
    }
    proof {
        assert(out@ =~= year_text(t.year as int));
    }
    out.push('-');
    push_padded(&mut out, t.month as u64, 2);
    out.push('-');
    push_padded(&mut out, t.day as u64, 2);
    out.push(' ');
    push_padded(&mut out, t.hour as u64, 2);
    out.push(':');
    push_padded(&mut out, t.minute as u64, 2);
    proof {
        assert(out@ =~= timestamp_text(*t));
    }
    string_of(&out)
}

} // verus!
