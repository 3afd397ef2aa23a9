//! Timing information captured around the phases of a scan, and its
//! plain-text summary.
use vstd::prelude::*;
use vstd::string::{StrSliceExecFns, StringExecFns};

verus! {

#[verifier::external_type_specification]
#[verifier::external_body]
pub struct ExInstant(std::time::Instant);

/// Relies on std::time::Instant::now: the current moment.
#[verifier::external_body]
fn instant_now() -> (r: std::time::Instant) {
    std::time::Instant::now()
}

/// Relies on Instant::saturating_duration_since: the time from the earlier
/// moment to the later one, zero when they are out of order.
#[verifier::external_body]
fn since(later: &std::time::Instant, earlier: &std::time::Instant) -> (r: std::time::Duration) {
    later.saturating_duration_since(*earlier)
}

/// Relies on Duration::as_millis: the duration in whole milliseconds.
#[verifier::external_body]
fn millis_of(d: &std::time::Duration) -> (r: u128) {
    d.as_millis()
}

/// The decimal digit character for a value below ten.
pub open spec fn digit_char(d: nat) -> char {
    if d == 0 {
        '0'
    } else if d == 1 {
        '1'
    } else if d == 2 {
        '2'
    } else if d == 3 {
        '3'
    } else if d == 4 {
        '4'
    } else if d == 5 {
        '5'
    } else if d == 6 {
        '6'
    } else if d == 7 {
        '7'
    } else if d == 8 {
        '8'
    } else {
        '9'
    }
}

/// A number written in decimal, most significant digit first.
pub open spec fn decimal_chars(n: nat) -> Seq<char>
    decreases n,
{
    if n < 10 {
        seq![digit_char(n)]
    } else {
        decimal_chars(n / 10) + seq![digit_char(n % 10)]
    }
}

/// A run of spaces.
pub open spec fn space_chars(n: nat) -> Seq<char> {
    Seq::new(n, |i: int| ' ')
}

/// Text left-aligned in a field of at least `w` characters.
pub open spec fn padded(s: Seq<char>, w: nat) -> Seq<char> {
    if s.len() >= w {
        s
    } else {
        s + space_chars((w - s.len()) as nat)
    }
}

/// A duration in seconds, with three decimals: `12.345`.
pub open spec fn seconds_chars(ms: nat) -> Seq<char> {
    decimal_chars(ms / 1000) + seq![
        '.',
        digit_char((ms % 1000) / 100),
        digit_char((ms % 100) / 10),
        digit_char(ms % 10),
    ]
}

/// One summary line: the timer's name and its runtime in seconds, each
/// left-aligned to ten characters.
pub open spec fn line_chars(name: Seq<char>, ms: u64) -> Seq<char> {
    "\n"@ + padded(name, 10) + " | "@ + padded(seconds_chars(ms as nat), 10) + "s"@
}

/// The one-character text of a decimal digit.
fn digit_str(d: u64) -> (r: &'static str)
    requires
        d < 10,
    ensures
        r@ == seq![digit_char(d as nat)],
{
    proof {
        reveal_strlit("0");
        reveal_strlit("1");
        reveal_strlit("2");
        reveal_strlit("3");
        reveal_strlit("4");
        reveal_strlit("5");
        reveal_strlit("6");
        reveal_strlit("7");
        reveal_strlit("8");
        reveal_strlit("9");
    }
    match d {
        0 => "0",
        1 => "1",
        2 => "2",
        3 => "3",
        4 => "4",
        5 => "5",
        6 => "6",
        7 => "7",
        8 => "8",
        _ => "9",
    }
}

/// Append a number in decimal.
pub(crate) fn append_decimal(out: &mut String, n: u64)
    ensures
        final(out)@ == old(out)@ + decimal_chars(n as nat),
    decreases n,
{
    if n >= 10 {
        append_decimal(out, n / 10);
    }
    out.append(digit_str(n % 10));
    proof {
        if n < 10 {
            assert(n % 10 == n);
        }
        assert(final(out)@ =~= old(out)@ + decimal_chars(n as nat));
    }
}

/// Append text left-aligned in a field of at least `width` characters.
fn append_padded(out: &mut String, text: &str, width: usize)
    ensures
        final(out)@ == old(out)@ + padded(text@, width as nat),
{
    out.append(text);
    let mut count = text.unicode_len();
    proof {
        reveal_strlit(" ");
        assert(out@ =~= old(out)@ + text@ + space_chars(0));
    }
    while count < width
        invariant
            text@.len() <= count,
            count <= width || count == text@.len(),
            out@ == old(out)@ + text@ + space_chars((count - text@.len()) as nat),
        decreases width - count,
    {
        out.append(" ");
        proof {
            reveal_strlit(" ");
            assert(out@ =~= old(out)@ + text@ + space_chars((count + 1 - text@.len()) as nat));
        }
        count = count + 1;
    }
    proof {
        assert(out@ =~= old(out)@ + padded(text@, width as nat));
    }
}

/// Append one summary line for a timer that ran `ms` milliseconds.
fn append_line(out: &mut String, name: &str, ms: u64)
    ensures
        final(out)@ == old(out)@ + line_chars(name@, ms),
{
    out.append("\n");
    append_padded(out, name, 10);
    out.append(" | ");
    let mut secs = String::new();
    append_decimal(&mut secs, ms / 1000);
    secs.append(digit_str_dot());
    secs.append(digit_str((ms % 1000) / 100));
    secs.append(digit_str((ms % 100) / 10));
    secs.append(digit_str(ms % 10));
    proof {
        assert(secs@ =~= seconds_chars(ms as nat));
    }
    append_padded(out, secs.as_str(), 10);
    out.append("s");
    proof {
        assert(final(out)@ =~= old(out)@ + line_chars(name@, ms));
    }
}

/// The decimal point.
fn digit_str_dot() -> (r: &'static str)
    ensures
        r@ == seq!['.'],
{
    proof {
        reveal_strlit(".");
    }
    "."
}

/// The purpose of NamedTimer is to hold a name, a start moment and an end
/// moment for one timer. The name appears in the benchmark summary; the
/// two moments give the runtime.
#[derive(Debug)]
pub struct NamedTimer {
    pub name: &'static str,
    pub start: Option<std::time::Instant>,
    pub end: Option<std::time::Instant>,
}

impl NamedTimer {
    pub fn start(name: &'static str) -> (r: Self)
        ensures
            r.name == name,
            r.start is Some,
            r.end is None,
    {
        Self { name, start: Some(instant_now()), end: None }
    }

    pub fn end(&mut self)
        ensures
            final(self).name == old(self).name,
            final(self).start == old(self).start,
            final(self).end is Some,
    {
        self.end = Some(instant_now());
    }
}

/// What the summary says: the heading, then one line per completed timer
/// — a timer with a start and an end — with its runtime in seconds. The
/// runtimes `ds` are whatever the clock measured, one value per timer.
pub open spec fn spec_summary(ts: Seq<NamedTimer>, ds: Seq<u64>) -> Seq<char>
    decreases ts.len(),
{
    if ts.len() == 0 {
        "\nRustScan Benchmark Summary"@
    } else {
        spec_summary(ts.drop_last(), ds.drop_last()) + if ts.last().start is Some
            && ts.last().end is Some {
            line_chars(ts.last().name@, ds.last())
        } else {
            Seq::empty()
        }
    }
}

/// A Benchmark holds NamedTimers, each with a name and its start and end
/// moments.
#[derive(Debug)]
pub struct Benchmark {
    pub named_timers: Vec<NamedTimer>,
}

impl Benchmark {
    pub fn init() -> (r: Self)
        ensures
            r.named_timers@ == Seq::<NamedTimer>::empty(),
    {
        Self { named_timers: Vec::new() }
    }

    pub fn push(&mut self, timer: NamedTimer)
        ensures
            final(self).named_timers@ == old(self).named_timers@.push(timer),
    {
        self.named_timers.push(timer);
    }

    /// The benchmark summary: every timer formatted the same way, in one
    /// string for easy printing. Timers that never ended are left out.
    pub fn summary(&self) -> (r: String)
        ensures
            exists|ds: Seq<u64>|
                ds.len() == self.named_timers@.len() && r@ == #[trigger] spec_summary(
                    self.named_timers@,
                    ds,
                ),
    {
        let mut out = String::new();
        out.append("\nRustScan Benchmark Summary");
        let ghost mut ds: Seq<u64> = Seq::empty();
        proof {
            assert(self.named_timers@.subrange(0, 0) =~= Seq::<NamedTimer>::empty());
        }
        let mut i: usize = 0;
        while i < self.named_timers.len()
            invariant
                0 <= i <= self.named_timers@.len(),
                ds.len() == i,
                out@ == spec_summary(self.named_timers@.subrange(0, i as int), ds),
            decreases self.named_timers@.len() - i,
        {
            let timer = &self.named_timers[i];
            let ghost prefix = self.named_timers@.subrange(0, i as int);
            let ghost prefix1 = self.named_timers@.subrange(0, i + 1);
            proof {
                assert(prefix1.drop_last() =~= prefix);
                assert(prefix1.last() == self.named_timers@[i as int]);
            }
            if timer.start.is_some() && timer.end.is_some() {
                let started = timer.start.as_ref().unwrap();
                let ended = timer.end.as_ref().unwrap();
                let runtime = since(ended, started);
                let big = millis_of(&runtime);
                let ms: u64 = if big > u64::MAX as u128 {
                    u64::MAX
                } else {
                    big as u64
                };
                append_line(&mut out, timer.name, ms);
                proof {
                    let ds0 = ds;
                    ds = ds.push(ms);
                    assert(ds.drop_last() =~= ds0);
                    assert(spec_summary(prefix1, ds) == spec_summary(prefix, ds0) + line_chars(
                        self.named_timers@[i as int].name@,
                        ms,
                    ));
                    assert(out@ =~= spec_summary(prefix1, ds));
                }
            } else {
                proof {
                    let ds0 = ds;
                    ds = ds.push(0);
                    assert(ds.drop_last() =~= ds0);
                    assert(spec_summary(prefix1, ds) == spec_summary(prefix, ds0)
                        + Seq::<char>::empty());
                    assert(out@ =~= spec_summary(prefix1, ds));
                }
            }
            i = i + 1;
        }
        proof {
            assert(self.named_timers@.subrange(0, self.named_timers@.len() as int)
                =~= self.named_timers@);
        }
        out
    }
}

} // verus!
