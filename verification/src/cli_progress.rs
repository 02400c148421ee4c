//! Terminal progress reporting: which lines a command-line sink prints for
//! each progress event, and what they say.
//!
//! The sink itself keeps only the state that decides what to print. Stamping
//! the lines with the elapsed time and writing them out is the caller's part.

use vstd::prelude::*;
use crate::progress::Event;
use crate::text::{decimal, digit_char, push_decimal, push_digit, same_text};

verus! {

/// One kibibyte.
pub const KIB: u64 = 1024;

/// One mebibyte.
pub const MIB: u64 = 1048576;

/// One gibibyte.
pub const GIB: u64 = 1073741824;

/// Integers below this bound are exactly representable as `f64`.
pub const F64_EXACT_BOUND: u64 = 9007199254740992;

/// Selects which kinds of output lines a [`CliSink`] emits.
#[derive(Copy, Clone, Debug)]
pub enum Mode {
    /// Running percentage only.
    Progress,
    /// Stage transitions only.
    Verbose,
    /// Both, interleaved.
    Both,
}

// ---------------------------------------------------------------------------
// Byte counts in human units.
// ---------------------------------------------------------------------------

/// `n / d` rounded to the nearest integer, ties to the even neighbour.
pub open spec fn round_half_even(n: nat, d: nat) -> nat
    recommends
        d > 0,
{
    let q = n / d;
    let r = n % d;
    if 2 * r > d {
        q + 1
    } else if 2 * r < d {
        q
    } else if q % 2 == 0 {
        q
    } else {
        q + 1
    }
}

/// The spacing of `f64` values around `b`: 1 below 2^53, doubling with
/// every further binary digit.
pub open spec fn f64_spacing(b: nat) -> nat
    decreases b,
{
    if b < F64_EXACT_BOUND {
        1
    } else {
        2 * f64_spacing(b / 2)
    }
}

/// The value of `b as f64`: `b` rounded to the nearest multiple of the
/// spacing, ties to even.
pub open spec fn f64_of(b: nat) -> nat {
    round_half_even(b, f64_spacing(b)) * f64_spacing(b)
}

/// `b / unit` in tenths, rounded as one-decimal formatting of the `f64`
/// quotient rounds it (to nearest, ties to even).
pub open spec fn tenths(b: nat, unit: nat) -> nat {
    round_half_even(f64_of(b) * 10, unit)
}

/// A count of tenths written with one decimal place.
pub open spec fn one_decimal(t: nat) -> Seq<char> {
    decimal(t / 10) + seq!['.', digit_char(t % 10)]
}

/// A byte count in the largest unit that it reaches, with one decimal
/// place, or in plain bytes below one kibibyte.
pub open spec fn human_bytes_text(b: nat) -> Seq<char> {
    if b >= GIB {
        one_decimal(tenths(b, GIB as nat)) + seq![' ', 'G', 'B']
    } else if b >= MIB {
        one_decimal(tenths(b, MIB as nat)) + seq![' ', 'M', 'B']
    } else if b >= KIB {
        one_decimal(tenths(b, KIB as nat)) + seq![' ', 'K', 'B']
    } else {
        decimal(b) + seq![' ', 'B']
    }
}

proof fn lemma_spacing_bound(b: nat)
    ensures
        f64_spacing(b) >= 1,
        b >= F64_EXACT_BOUND ==> f64_spacing(b) * 4503599627370496 <= b,
    decreases b,
{
    if b >= F64_EXACT_BOUND {
        lemma_spacing_bound(b / 2);
    }
}

proof fn lemma_round_half_even_bound(n: nat, d: nat)
    requires
        d > 0,
    ensures
        round_half_even(n, d) <= n / d + 1,
        round_half_even(n, d) * d <= n + d,
{
    assert((n / d) * d <= n) by (nonlinear_arith)
        requires
            d > 0,
    {
        vstd::arithmetic::div_mod::lemma_fundamental_div_mod(n as int, d as int);
    }
    let q = round_half_even(n, d);
    assert(q * d <= (n / d + 1) * d) by (nonlinear_arith)
        requires
            q <= n / d + 1,
    ;
    assert((n / d + 1) * d == (n / d) * d + d) by (nonlinear_arith);
}

/// `n / d` rounded to nearest, ties to even.
fn div_round_half_even(n: u128, d: u128) -> (q: u128)
    requires
        d > 0,
    ensures
        q == round_half_even(n as nat, d as nat),
{
    let q = n / d;
    let r = n % d;
    proof {
        assert(r < d);
        assert(q <= n);
    }
    if d >= 2 {
        proof {
            vstd::arithmetic::div_mod::lemma_fundamental_div_mod(n as int, d as int);
            assert(q * 2 <= q * d) by (nonlinear_arith)
                requires
                    d >= 2,
            ;
            assert(q < u128::MAX);
        }
    }
    if r > d - r {
        q + 1
    } else if r < d - r {
        q
    } else if q % 2 == 0 {
        q
    } else {
        q + 1
    }
}

/// The spacing of `f64` values around `b`.
fn f64_spacing_of(b: u64) -> (s: u64)
    ensures
        s == f64_spacing(b as nat),
        1 <= s <= 4096,
    decreases b,
{
    proof {
        lemma_spacing_bound(b as nat);
    }
    if b < F64_EXACT_BOUND {
        1
    } else {
        let half = f64_spacing_of(b / 2);
        proof {
            assert(f64_spacing(b as nat) == 2 * f64_spacing((b / 2) as nat));
            assert(f64_spacing(b as nat) * 4503599627370496 <= b);
            assert(f64_spacing(b as nat) <= 4096);
        }
        2 * half
    }
}

/// The value of `b as f64`, as an integer.
fn f64_value_of(b: u64) -> (v: u128)
    ensures
        v == f64_of(b as nat),
        v <= b + 4096,
{
    let s = f64_spacing_of(b);
    let q = div_round_half_even(b as u128, s as u128);
    proof {
        lemma_round_half_even_bound(b as nat, s as nat);
        assert((b as nat) / (s as nat) <= b as nat);
        assert(q <= b + 1);
        assert(q * s <= b + s);
    }
    q * (s as u128)
}

/// Append `t` tenths with one decimal place.
fn push_one_decimal(out: &mut String, t: u64)
    ensures
        final(out)@ == old(out)@ + one_decimal(t as nat),
{
    push_decimal(out, t / 10);
    proof {
        reveal_strlit(".");
    }
    out.append(".");
    push_digit(out, t % 10);
    proof {
        assert(final(out)@ =~= old(out)@ + one_decimal(t as nat));
    }
}

/// A byte count in human units, such as `1.5 KB` or `1023 B`.
pub fn human_bytes(bytes: u64) -> (s: String)
    ensures
        s@ == human_bytes_text(bytes as nat),
{
    proof {
        reveal_strlit(" GB");
        reveal_strlit(" MB");
        reveal_strlit(" KB");
        reveal_strlit(" B");
    }
    let mut s = String::new();
    if bytes >= KIB {
        let unit: u64 = if bytes >= GIB {
            GIB
        } else if bytes >= MIB {
            MIB
        } else {
            KIB
        };
        let v = f64_value_of(bytes);
        let t = div_round_half_even(v * 10, unit as u128);
        proof {
            lemma_round_half_even_bound((v * 10) as nat, unit as nat);
            assert(t <= (v * 10) as nat / (unit as nat) + 1);
            assert((v * 10) as nat / (unit as nat) <= (v * 10) as nat / 1024) by {
                vstd::arithmetic::div_mod::lemma_div_is_ordered_by_denominator(
                    (v * 10) as int,
                    1024,
                    unit as int,
                );
            }
        }
        push_one_decimal(&mut s, t as u64);
        if bytes >= GIB {
            s.append(" GB");
        } else if bytes >= MIB {
            s.append(" MB");
        } else {
            s.append(" KB");
        }
    } else {
        push_decimal(&mut s, bytes);
        s.append(" B");
    }
    s
}

// ---------------------------------------------------------------------------
// Percentages and descriptions.
// ---------------------------------------------------------------------------

/// The share of the pipeline that a named stage marks.
pub open spec fn stage_percent(name: Seq<char>) -> nat {
    if name == "eval"@ {
        5
    } else if name == "layout"@ {
        10
    } else if name == "export"@ {
        40
    } else {
        2
    }
}

/// Whether the percentage of `event` can be computed in machine integers.
pub open spec fn percent_defined(event: Event) -> bool {
    match event {
        Event::PageEmitted { done, total } => total == 0 || done * 55 <= usize::MAX,
        _ => true,
    }
}

/// The share of the whole pipeline, in percent, reached at `event`.
pub open spec fn percent_of(event: Event) -> nat {
    match event {
        Event::Stage(name) => stage_percent(name@),
        Event::Iteration(n) => {
            let extra: nat = if n == 0 {
                0
            } else if n - 1 >= 4 {
                4
            } else {
                (n - 1) as nat
            };
            10 + extra * 5
        },
        Event::Pages(_) => 40,
        Event::PageEmitted { done, total } => {
            if total == 0 {
                95
            } else {
                let share: nat = (done * 55) as nat / (total as nat);
                if share >= 55 {
                    95
                } else {
                    40 + share
                }
            }
        },
        Event::Wrote { .. } => 100,
    }
}

/// The share of the pipeline reached at `event`, in percent.
pub fn percent_for(event: &Event) -> (p: u8)
    requires
        percent_defined(*event),
    ensures
        p == percent_of(*event),
        p <= 100,
{
    match event {
        Event::Stage(name) => {
            if same_text(name, "eval") {
                5
            } else if same_text(name, "layout") {
                10
            } else if same_text(name, "export") {
                40
            } else {
                2
            }
        },
        Event::Iteration(n) => {
            let extra: u32 = if *n == 0 {
                0
            } else if *n - 1 >= 4 {
                4
            } else {
                *n - 1
            };
            (10 + extra * 5) as u8
        },
        Event::Pages(_) => 40,
        Event::PageEmitted { done, total } => {
            if *total == 0 {
                95
            } else {
                let share = *done * 55 / *total;
                let capped = if share >= 55 {
                    55
                } else {
                    share
                };
                (40 + capped) as u8
            }
        },
        Event::Wrote { .. } => 100,
    }
}

/// A short human description of `event`.
pub open spec fn describe_text(event: Event) -> Seq<char> {
    match event {
        Event::Stage(name) => name@,
        Event::Iteration(n) => "layout iteration "@ + decimal(n as nat),
        Event::Pages(n) => "layout converged, "@ + decimal(n as nat) + " page(s)"@,
        Event::PageEmitted { done, total } => "export "@ + decimal(done as nat) + "/"@ + decimal(
            total as nat,
        ),
        Event::Wrote { bytes } => "wrote ("@ + human_bytes_text(bytes as nat) + ")"@,
    }
}

/// A short human description of `event`.
pub fn describe(event: &Event) -> (s: String)
    ensures
        s@ == describe_text(*event),
{
    match event {
        Event::Stage(name) => String::from_str(name),
        Event::Iteration(n) => {
            let mut s = String::from_str("layout iteration ");
            push_decimal(&mut s, *n as u64);
            s
        },
        Event::Pages(n) => {
            let mut s = String::from_str("layout converged, ");
            push_decimal(&mut s, *n as u64);
            s.append(" page(s)");
            s
        },
        Event::PageEmitted { done, total } => {
            let mut s = String::from_str("export ");
            push_decimal(&mut s, *done as u64);
            s.append("/");
            push_decimal(&mut s, *total as u64);
            s
        },
        Event::Wrote { bytes } => {
            let mut s = String::from_str("wrote (");
            let human = human_bytes(*bytes);
            s.append(human.as_str());
            s.append(")");
            s
        },
    }
}


/// During export the percentage never goes back as more pages are done.
pub proof fn lemma_export_percent_monotone(done1: usize, done2: usize, total: usize)
    requires
        done1 <= done2,
        percent_defined(Event::PageEmitted { done: done2, total }),
    ensures
        percent_defined(Event::PageEmitted { done: done1, total }),
        percent_of(Event::PageEmitted { done: done1, total }) <= percent_of(
            Event::PageEmitted { done: done2, total },
        ),
{
    if total > 0 {
        vstd::arithmetic::div_mod::lemma_div_is_ordered(
            done1 * 55,
            done2 * 55,
            total as int,
        );
    }
}

/// Later layout iterations never report a lower percentage.
pub proof fn lemma_iteration_percent_monotone(n1: u32, n2: u32)
    requires
        n1 <= n2,
    ensures
        percent_of(Event::Iteration(n1)) <= percent_of(Event::Iteration(n2)),
{
}

/// The milestones of the pipeline, in the order in which they come, never
/// report a lower percentage than the one before: eval, layout, the layout
/// iterations, the page count, export, each exported page, the final write.
pub proof fn lemma_percent_follows_pipeline(
    iteration: u32,
    pages: usize,
    done: usize,
    total: usize,
    bytes: u64,
)
    requires
        percent_defined(Event::PageEmitted { done, total }),
    ensures
        stage_percent("eval"@) <= stage_percent("layout"@),
        stage_percent("layout"@) <= percent_of(Event::Iteration(iteration)),
        percent_of(Event::Iteration(iteration)) <= percent_of(Event::Pages(pages)),
        percent_of(Event::Pages(pages)) == stage_percent("export"@),
        stage_percent("export"@) <= percent_of(Event::PageEmitted { done, total }),
        percent_of(Event::PageEmitted { done, total }) <= percent_of(Event::Wrote { bytes }),
{
    reveal_strlit("eval");
    reveal_strlit("layout");
    reveal_strlit("export");
    assert("layout"@ != "eval"@) by {
        assert("layout"@.len() != "eval"@.len());
    }
    assert("export"@ != "eval"@) by {
        assert("export"@[1] != "eval"@[1]);
    }
    assert("export"@ != "layout"@) by {
        assert("export"@[0] != "layout"@[0]);
    }
}

/// Whether output lines of the stage log are printed in `mode`.
pub open spec fn shows_stages(mode: Mode) -> bool {
    mode is Verbose || mode is Both
}

/// Whether percentage lines are printed in `mode`.
pub open spec fn shows_percent(mode: Mode) -> bool {
    mode is Progress || mode is Both
}

/// How many pages may pass between two export lines of the stage log.
pub open spec fn page_log_step(total: nat) -> nat {
    if total / 20 >= 50 {
        total / 20
    } else {
        50
    }
}

/// Whether the stage log mentions page `done` of `total`, the last page
/// that it mentioned being `last_logged`.
pub open spec fn logs_page(done: nat, total: nat, last_logged: nat) -> bool {
    done == 1 || done == total || (done >= last_logged && done - last_logged >= page_log_step(total))
}

/// Whether the stage log prints a line for `event`.
pub open spec fn stage_line_shown(mode: Mode, event: Event, last_logged: nat) -> bool {
    shows_stages(mode) && match event {
        Event::PageEmitted { done, total } => logs_page(done as nat, total as nat, last_logged),
        _ => true,
    }
}

/// The last page that the stage log has mentioned after `event`.
pub open spec fn next_logged_page(mode: Mode, event: Event, last_logged: nat) -> nat {
    match event {
        Event::PageEmitted { done, .. } => if stage_line_shown(mode, event, last_logged) {
            done as nat
        } else {
            last_logged
        },
        _ => last_logged,
    }
}

/// Which export lines the stage log prints, in a mode that shows it: the
/// first and the last page are always mentioned, whatever page was
/// mentioned last; so is a page at least one step past the last one
/// mentioned; no other page is. A mentioned page becomes the last one
/// mentioned, and its line reads `export {done}/{total}`.
pub proof fn lemma_export_lines(mode: Mode, done: usize, total: usize, last_logged: nat)
    requires
        shows_stages(mode),
    ensures
        done == total ==> stage_line_shown(mode, Event::PageEmitted { done, total }, last_logged),
        done == 1 ==> stage_line_shown(mode, Event::PageEmitted { done, total }, last_logged),
        done >= last_logged + page_log_step(total as nat) ==> stage_line_shown(
            mode,
            Event::PageEmitted { done, total },
            last_logged,
        ),
        done != 1 && done != total && done < last_logged + page_log_step(total as nat)
            ==> !stage_line_shown(mode, Event::PageEmitted { done, total }, last_logged),
        stage_line_shown(mode, Event::PageEmitted { done, total }, last_logged) ==> next_logged_page(
            mode,
            Event::PageEmitted { done, total },
            last_logged,
        ) == done,
        !stage_line_shown(mode, Event::PageEmitted { done, total }, last_logged)
            ==> next_logged_page(mode, Event::PageEmitted { done, total }, last_logged)
            == last_logged,
        stage_line_text(Event::PageEmitted { done, total }) == "export "@ + decimal(done as nat)
            + "/"@ + decimal(total as nat),
        total >= 1000 ==> page_log_step(total as nat) == total / 20,
        total < 1000 ==> page_log_step(total as nat) == 50,
{
}

/// Which lines each mode prints: the stage log is shown in verbose mode and
/// with both, never in progress mode; percentage lines in progress mode and
/// with both, never in verbose mode. Where a kind of line is shown, every
/// event other than a page export gets one. Only a page export can change
/// the last page mentioned.
pub proof fn lemma_lines_by_mode(mode: Mode, event: Event, last_logged: nat, last_percent: int)
    ensures
        mode is Progress ==> !stage_line_shown(mode, event, last_logged),
        mode is Verbose ==> !percent_line_shown(mode, event, last_percent),
        !(mode is Progress) && !(event is PageEmitted) ==> stage_line_shown(
            mode,
            event,
            last_logged,
        ),
        !(mode is Verbose) && !(event is PageEmitted) ==> percent_line_shown(
            mode,
            event,
            last_percent,
        ),
        !(event is PageEmitted) ==> next_logged_page(mode, event, last_logged) == last_logged,
{
}

/// The stage log line for `event`, without its time stamp.
pub open spec fn stage_line_text(event: Event) -> Seq<char> {
    match event {
        Event::Stage(name) => "stage: "@ + name@,
        Event::Iteration(n) => "layout iteration "@ + decimal(n as nat),
        Event::Pages(n) => "layout converged, "@ + decimal(n as nat) + " page(s)"@,
        Event::PageEmitted { done, total } => "export "@ + decimal(done as nat) + "/"@ + decimal(
            total as nat,
        ),
        Event::Wrote { bytes } => "wrote output ("@ + human_bytes_text(bytes as nat) + ")"@,
    }
}

/// Whether a percentage line is printed for `event`, the last printed
/// percentage being `last_percent` (-1 before the first). Stage boundaries,
/// layout iterations, the page count and the final write are always
/// printed; page-by-page export only when the whole percentage advances.
pub open spec fn percent_line_shown(mode: Mode, event: Event, last_percent: int) -> bool {
    shows_percent(mode) && match event {
        Event::PageEmitted { .. } => percent_of(event) > last_percent,
        _ => true,
    }
}

/// `p` right-aligned in three columns.
pub open spec fn pad3(p: nat) -> Seq<char> {
    if p < 10 {
        seq![' ', ' '] + decimal(p)
    } else if p < 100 {
        seq![' '] + decimal(p)
    } else {
        decimal(p)
    }
}

/// The percentage line for `event`, without its time stamp.
pub open spec fn percent_line_text(event: Event) -> Seq<char> {
    pad3(percent_of(event)) + seq!['%', ' '] + describe_text(event)
}

/// Decides which progress lines a terminal shows for each event.
pub struct CliSink {
    mode: Mode,
    last_percent: i16,
    last_page_logged: usize,
}

/// The lines printed for one event, each without its time stamp.
pub struct CliLines {
    /// A line of the stage log.
    pub stage: Option<String>,
    /// A percentage line.
    pub progress: Option<String>,
}

impl CliSink {
    /// Which kinds of lines are printed.
    pub closed spec fn mode(&self) -> Mode {
        self.mode
    }

    /// The last printed percentage, -1 before the first.
    pub closed spec fn last_percent(&self) -> int {
        self.last_percent as int
    }

    /// The last page that the stage log mentioned, 0 before the first.
    pub closed spec fn last_page_logged(&self) -> nat {
        self.last_page_logged as nat
    }

    /// A sink that has printed nothing yet.
    pub fn new(mode: Mode) -> (sink: Self)
        ensures
            sink.mode() == mode,
            sink.last_percent() == -1,
            sink.last_page_logged() == 0,
    {
        CliSink { mode, last_percent: -1, last_page_logged: 0 }
    }

    /// The lines to print for `event`; records what was printed.
    pub fn report(&mut self, event: Event) -> (lines: CliLines)
        requires
            shows_percent(old(self).mode()) ==> percent_defined(event),
        ensures
            final(self).mode() == old(self).mode(),
            lines.stage is Some <==> stage_line_shown(
                old(self).mode(),
                event,
                old(self).last_page_logged(),
            ),
            lines.stage is Some ==> lines.stage->0@ == stage_line_text(event),
            final(self).last_page_logged() == next_logged_page(
                old(self).mode(),
                event,
                old(self).last_page_logged(),
            ),
            lines.progress is Some <==> percent_line_shown(
                old(self).mode(),
                event,
                old(self).last_percent(),
            ),
            lines.progress is Some ==> lines.progress->0@ == percent_line_text(event),
            final(self).last_percent() == if lines.progress is Some {
                percent_of(event) as int
            } else {
                old(self).last_percent()
            },
    {
        let verbose = match self.mode {
            Mode::Verbose | Mode::Both => true,
            Mode::Progress => false,
        };
        let progress = match self.mode {
            Mode::Progress | Mode::Both => true,
            Mode::Verbose => false,
        };
        let stage = if verbose {
            self.stage_line(&event)
        } else {
            None
        };
        let progress = if progress {
            self.percent_line(&event)
        } else {
            None
        };
        CliLines { stage, progress }
    }

    /// The stage log line for `event`, if it is due.
    fn stage_line(&mut self, event: &Event) -> (line: Option<String>)
        requires
            shows_stages(old(self).mode()),
        ensures
            final(self).mode() == old(self).mode(),
            final(self).last_percent() == old(self).last_percent(),
            line is Some <==> stage_line_shown(old(self).mode(), *event, old(self).last_page_logged()),
            line is Some ==> line->0@ == stage_line_text(*event),
            final(self).last_page_logged() == next_logged_page(
                old(self).mode(),
                *event,
                old(self).last_page_logged(),
            ),
    {
        match event {
            Event::Stage(name) => {
                let mut s = String::from_str("stage: ");
                s.append(name);
                Some(s)
            },
            Event::Iteration(n) => {
                let mut s = String::from_str("layout iteration ");
                push_decimal(&mut s, *n as u64);
                Some(s)
            },
            Event::Pages(n) => {
                let mut s = String::from_str("layout converged, ");
                push_decimal(&mut s, *n as u64);
                s.append(" page(s)");
                Some(s)
            },
            Event::PageEmitted { done, total } => {
                let step = if *total / 20 >= 50 {
                    *total / 20
                } else {
                    50
                };
                let since = if *done >= self.last_page_logged {
                    *done - self.last_page_logged
                } else {
                    0
                };
                if *done == 1 || *done == *total || since >= step {
                    self.last_page_logged = *done;
                    let mut s = String::from_str("export ");
                    push_decimal(&mut s, *done as u64);
                    s.append("/");
                    push_decimal(&mut s, *total as u64);
                    Some(s)
                } else {
                    None
                }
            },
            Event::Wrote { bytes } => {
                let mut s = String::from_str("wrote output (");
                let human = human_bytes(*bytes);
                s.append(human.as_str());
                s.append(")");
                Some(s)
            },
        }
    }

    /// The percentage line for `event`, if it is due.
    fn percent_line(&mut self, event: &Event) -> (line: Option<String>)
        requires
            shows_percent(old(self).mode()),
            percent_defined(*event),
        ensures
            final(self).mode() == old(self).mode(),
            final(self).last_page_logged() == old(self).last_page_logged(),
            line is Some <==> percent_line_shown(old(self).mode(), *event, old(self).last_percent()),
            line is Some ==> line->0@ == percent_line_text(*event),
            final(self).last_percent() == if line is Some {
                percent_of(*event) as int
            } else {
                old(self).last_percent()
            },
    {
        let p = percent_for(event);
        let shown = match event {
            Event::PageEmitted { .. } => (p as i16) > self.last_percent,
            _ => true,
        };
        if shown {
            self.last_percent = p as i16;
            let mut s = String::new();
            proof {
                reveal_strlit("  ");
                reveal_strlit(" ");
                reveal_strlit("% ");
            }
            if p < 10 {
                s.append("  ");
            } else if p < 100 {
                s.append(" ");
            }
            push_decimal(&mut s, p as u64);
            s.append("% ");
            let text = describe(event);
            s.append(text.as_str());
            proof {
                assert(s@ =~= percent_line_text(*event));
            }
            Some(s)
        } else {
            None
        }
    }
}

} // verus!
