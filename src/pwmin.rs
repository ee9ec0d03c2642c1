//! The `pwmin` command: starting and stopping the PWM-input capture
//! channels. The capture itself runs in the host's tasks; this module keeps
//! the channel state and decides which signal each channel gets.
use vstd::prelude::*;

use crate::error::ShellError;
use crate::line::{args_part, command_part, find_space, is_ascii_whitespace, is_ws, slice_of};
use crate::registry::{has_name, named, SevenShellEnv};
use vstd::string::StringSliceAdditionalSpecFns;

verus! {

/// The capture state machines' clock, in Hz.
pub const SM_CLK: u32 = 125_000_000;

/// The number of capture channels.
pub const PWMIN_CHANNELS: usize = 5;

/// One measurement of a PWM input, in clock ticks.
#[derive(Clone, Copy, Debug)]
pub struct PwmInfo {
    pub pin: u32,
    pub clk: u32,
    pub high_period: u32,
    pub low_period: u32,
}

impl Default for PwmInfo {
    fn default() -> (r: Self)
        ensures
            r.pin == 0 && r.clk == SM_CLK && r.high_period == 0 && r.low_period == 0,
    {
        PwmInfo { pin: 0, clk: SM_CLK, high_period: 0, low_period: 0 }
    }
}

/// The high and low periods, in ticks, of a pair of words read from a
/// capture state machine: each word counts half ticks, and the one whose
/// top four bits are set belongs to the low phase.
pub open spec fn periods(first: u32, second: u32) -> (u32, u32) {
    if first & 0xF000_0000u32 != 0 {
        (second.wrapping_mul(2), first.wrapping_mul(2))
    } else {
        (first.wrapping_mul(2), second.wrapping_mul(2))
    }
}

impl PwmInfo {
    /// Takes a pair of words from the capture state machine. The stored
    /// periods change, and the result is true, only when one of them moved
    /// to another ten-tick bucket: that is when the measurement is worth
    /// publishing.
    pub fn update(&mut self, first: u32, second: u32) -> (r: bool)
        ensures
            r == (periods(first, second).0 / 10 != old(self).high_period / 10 || periods(
                first,
                second,
            ).1 / 10 != old(self).low_period / 10),
            r ==> final(self).high_period == periods(first, second).0 && final(self).low_period
                == periods(first, second).1,
            !r ==> final(self).high_period == old(self).high_period && final(self).low_period == old(
                self,
            ).low_period,
            final(self).pin == old(self).pin && final(self).clk == old(self).clk,
    {
        let (high_period, low_period) = if first & 0xF000_0000u32 != 0 {
            (second.wrapping_mul(2), first.wrapping_mul(2))
        } else {
            (first.wrapping_mul(2), second.wrapping_mul(2))
        };
        if high_period / 10 != self.high_period / 10 || low_period / 10 != self.low_period / 10 {
            self.high_period = high_period;
            self.low_period = low_period;
            true
        } else {
            false
        }
    }
}

/// What a capture channel is told to do.
#[derive(Clone, Copy, Debug, PartialEq, Eq, Structural)]
pub enum PwmInCommand {
    Start(usize),
    Stop,
}

/// Why a channel could not be started.
#[derive(Clone, Copy, Debug, PartialEq, Eq, Structural)]
pub enum PwmInError {
    PinError,
    PinInUse,
    PinAllocFail,
}

/// The state of one capture channel.
pub struct PwmIn {
    run: bool,
}

impl PwmIn {
    /// Whether the channel is marked running.
    pub closed spec fn running(&self) -> bool {
        self.run
    }

    /// A channel that is not running.
    pub fn new() -> (r: Self)
        ensures
            !r.running(),
    {
        PwmIn { run: false }
    }
}

/// The capture channels.
pub struct PwmInShellEnv {
    pwmin_state: [PwmIn; PWMIN_CHANNELS],
}

impl PwmInShellEnv {
    /// Whether each channel is marked running.
    pub closed spec fn running(&self) -> Seq<bool> {
        self.pwmin_state@.map_values(|p: PwmIn| p.running())
    }

    /// All channels stopped.
    pub fn new() -> (r: Self)
        ensures
            r.running() == Seq::new(PWMIN_CHANNELS as nat, |i: int| false),
    {
        let r = PwmInShellEnv {
            pwmin_state: [PwmIn::new(), PwmIn::new(), PwmIn::new(), PwmIn::new(), PwmIn::new()],
        };
        assert(r.running() =~= Seq::new(PWMIN_CHANNELS as nat, |i: int| false));
        r
    }

    /// Whether channel `idx` exists and is running.
    pub fn pin_in_use(&self, idx: usize) -> (r: bool)
        ensures
            r == (idx < PWMIN_CHANNELS && self.running()[idx as int]),
    {
        if idx < PWMIN_CHANNELS {
            return self.pwmin_state[idx].run;
        }
        false
    }

    /// Marks channel `idx` stopped; the stop signal to send, or nothing for
    /// a channel that does not exist.
    pub fn stop(&mut self, idx: usize) -> (r: Option<PwmInCommand>)
        ensures
            idx < PWMIN_CHANNELS ==> r == Some(PwmInCommand::Stop) && final(self).running() == old(
                self,
            ).running().update(idx as int, false),
            idx >= PWMIN_CHANNELS ==> r is None && final(self).running() == old(self).running(),
    {
        if idx < PWMIN_CHANNELS {
            self.pwmin_state[idx] = PwmIn { run: false };
            assert(self.running() =~= old(self).running().update(idx as int, false));
            Some(PwmInCommand::Stop)
        } else {
            None
        }
    }

    /// The start signal for channel `idx`; refused for a channel that is
    /// running or does not exist.
    pub fn start(&self, idx: usize) -> (r: Result<PwmInCommand, PwmInError>)
        ensures
            r == start_result(self.running(), idx as int),
    {
        if self.pin_in_use(idx) {
            Err(PwmInError::PinInUse)
        } else if idx < PWMIN_CHANNELS {
            Ok(PwmInCommand::Start(idx))
        } else {
            Err(PwmInError::PinError)
        }
    }
}

/// What `start` returns for channel `idx`.
pub open spec fn start_result(running: Seq<bool>, idx: int) -> Result<PwmInCommand, PwmInError> {
    if 0 <= idx < PWMIN_CHANNELS && running[idx] {
        Err(PwmInError::PinInUse)
    } else if 0 <= idx < PWMIN_CHANNELS {
        Ok(PwmInCommand::Start(idx as usize))
    } else {
        Err(PwmInError::PinError)
    }
}

/// The words of `s` from position `i` on, `cur` being the word under way:
/// runs of bytes between ASCII whitespace, as `split_ascii_whitespace` cuts
/// them.
pub open spec fn words_from(s: Seq<u8>, i: int, cur: Seq<u8>) -> Seq<Seq<u8>>
    decreases s.len() - i,
{
    if i >= s.len() {
        if cur.len() > 0 {
            seq![cur]
        } else {
            Seq::empty()
        }
    } else if is_ws(s[i]) {
        (if cur.len() > 0 {
            seq![cur]
        } else {
            Seq::empty()
        }) + words_from(s, i + 1, Seq::empty())
    } else {
        words_from(s, i + 1, cur.push(s[i]))
    }
}

/// The words of `s`.
pub open spec fn words(s: Seq<u8>) -> Seq<Seq<u8>> {
    words_from(s, 0, Seq::empty())
}

/// The value of a string of decimal digits.
pub open spec fn decimal_value(d: Seq<u8>) -> int
    decreases d.len(),
{
    if d.len() == 0 {
        0
    } else {
        decimal_value(d.drop_last()) * 10 + (d.last() - 0x30)
    }
}

/// Whether every byte of `d` is a decimal digit.
pub open spec fn all_digits(d: Seq<u8>) -> bool {
    forall|i: int| 0 <= i < d.len() ==> 0x30 <= #[trigger] d[i] <= 0x39
}

/// The `usize` that `w` spells (an optional `+`, then at least one digit),
/// if it fits.
pub open spec fn parse_index(w: Seq<u8>) -> Option<usize> {
    let d = if w.len() > 0 && w[0] == 0x2b {
        w.drop_first()
    } else {
        w
    };
    if d.len() > 0 && all_digits(d) && decimal_value(d) <= usize::MAX {
        Some(decimal_value(d) as usize)
    } else {
        None
    }
}

/// The decimal value does not shrink as digits are added.
proof fn lemma_decimal_grows(d: Seq<u8>, i: int)
    requires
        0 <= i <= d.len(),
        all_digits(d),
    ensures
        decimal_value(d.subrange(0, i)) <= decimal_value(d),
        0 <= decimal_value(d.subrange(0, i)),
    decreases d.len() - i,
{
    if i < d.len() {
        lemma_decimal_grows(d, i + 1);
        let a = d.subrange(0, i);
        let b = d.subrange(0, i + 1);
        assert(b.drop_last() =~= a);
        lemma_decimal_nonneg(a);
        assert(decimal_value(b) == decimal_value(a) * 10 + (b.last() - 0x30));
        assert(decimal_value(a) <= decimal_value(b)) by (nonlinear_arith)
            requires
                decimal_value(b) == decimal_value(a) * 10 + (b.last() - 0x30),
                0 <= b.last() - 0x30,
                0 <= decimal_value(a),
        ;
    } else {
        assert(d.subrange(0, i) =~= d);
        lemma_decimal_nonneg(d);
    }
}

/// A decimal value is never negative.
proof fn lemma_decimal_nonneg(d: Seq<u8>)
    requires
        all_digits(d),
    ensures
        0 <= decimal_value(d),
    decreases d.len(),
{
    if d.len() > 0 {
        assert(all_digits(d.drop_last()));
        lemma_decimal_nonneg(d.drop_last());
    }
}

/// Reads a channel number as `usize::from_str` does.
pub fn parse_index_bytes(w: &[u8]) -> (r: Option<usize>)
    ensures
        r == parse_index(w@),
{
    let start: usize = if w.len() > 0 && w[0] == 0x2b {
        1
    } else {
        0
    };
    let ghost d = if w@.len() > 0 && w@[0] == 0x2b {
        w@.drop_first()
    } else {
        w@
    };
    assert(d =~= w@.subrange(start as int, w@.len() as int));
    if start == w.len() {
        return None;
    }
    let mut v: usize = 0;
    let mut i: usize = start;
    while i < w.len()
        invariant
            start <= i <= w@.len(),
            d == w@.subrange(start as int, w@.len() as int),
            d == (if w@.len() > 0 && w@[0] == 0x2b {
                w@.drop_first()
            } else {
                w@
            }),
            all_digits(d.subrange(0, i - start)),
            v == decimal_value(d.subrange(0, i - start)),
        decreases w@.len() - i,
    {
        let c = w[i];
        if c < 0x30 || c > 0x39 {
            assert(d[i - start] == c);
            assert(!all_digits(d));
            return None;
        }
        let digit = (c - 0x30) as usize;
        let ghost a = d.subrange(0, i - start);
        let ghost b = d.subrange(0, i - start + 1);
        assert(b.drop_last() =~= a);
        assert(b.last() == c);
        assert(all_digits(b)) by {
            assert forall|k: int| 0 <= k < b.len() implies 0x30 <= #[trigger] b[k] <= 0x39 by {
                if k < a.len() {
                    assert(b[k] == a[k]);
                }
            }
        }
        if v > (usize::MAX - digit) / 10 {
            proof {
                assert(decimal_value(b) == v * 10 + digit);
                assert(v * 10 + digit > usize::MAX) by (nonlinear_arith)
                    requires
                        v > (usize::MAX - digit) / 10,
                        digit <= 9,
                ;
                if all_digits(d) {
                    lemma_decimal_grows(d, i - start + 1);
                    assert(decimal_value(d) > usize::MAX);
                }
                assert(parse_index(w@) is None);
            }
            return None;
        }
        proof {
            assert(v * 10 + digit <= usize::MAX) by (nonlinear_arith)
                requires
                    v <= (usize::MAX - digit) / 10,
                    digit <= 9,
            ;
        }
        v = v * 10 + digit;
        i = i + 1;
    }
    assert(d.subrange(0, d.len() as int) =~= d);
    Some(v)
}

/// The words of `s`, cut at ASCII whitespace.
pub fn split_words(s: &[u8]) -> (r: Vec<Vec<u8>>)
    ensures
        r@.map_values(|w: Vec<u8>| w@) == words(s@),
{
    let mut acc: Vec<Vec<u8>> = Vec::new();
    let mut cur: Vec<u8> = Vec::new();
    let mut i: usize = 0;
    assert(acc@.map_values(|w: Vec<u8>| w@) =~= Seq::<Seq<u8>>::empty());
    assert(cur@ =~= Seq::<u8>::empty());
    while i < s.len()
        invariant
            i <= s@.len(),
            acc@.map_values(|w: Vec<u8>| w@) + words_from(s@, i as int, cur@) == words(s@),
        decreases s@.len() - i,
    {
        let ghost before = acc@.map_values(|w: Vec<u8>| w@);
        let ghost c0 = cur@;
        if is_ascii_whitespace(s[i]) {
            if cur.len() > 0 {
                let done = cur;
                acc.push(done);
                cur = Vec::new();
                assert(acc@.map_values(|w: Vec<u8>| w@) =~= before + seq![c0]);
                assert(before + seq![c0] + words_from(s@, i + 1, Seq::empty()) =~= before + (seq![c0]
                    + words_from(s@, i + 1, Seq::empty())));
            } else {
                assert(Seq::<Seq<u8>>::empty() + words_from(s@, i + 1, Seq::empty()) =~= words_from(
                    s@,
                    i + 1,
                    Seq::empty(),
                ));
            }
            assert(cur@ =~= Seq::<u8>::empty());
        } else {
            cur.push(s[i]);
        }
        i = i + 1;
    }
    let ghost before = acc@.map_values(|w: Vec<u8>| w@);
    if cur.len() > 0 {
        let ghost c0 = cur@;
        acc.push(cur);
        assert(acc@.map_values(|w: Vec<u8>| w@) =~= before + seq![c0]);
    } else {
        assert(before + Seq::<Seq<u8>>::empty() =~= before);
    }
    acc
}

/// `"start"`.
pub open spec fn start_word() -> Seq<u8> {
    seq![0x73u8, 0x74u8, 0x61u8, 0x72u8, 0x74u8]
}

/// `"stop"`.
pub open spec fn stop_word() -> Seq<u8> {
    seq![0x73u8, 0x74u8, 0x6fu8, 0x70u8]
}

/// `"pwmin"`, the name the command is registered under.
pub open spec fn pwmin_name() -> Seq<u8> {
    seq![0x70u8, 0x77u8, 0x6du8, 0x69u8, 0x6eu8]
}

/// Whether `w` is the word `"start"`.
fn is_start(w: &[u8]) -> (r: bool)
    ensures
        r == (w@ == start_word()),
{
    let r = w.len() == 5 && w[0] == 0x73 && w[1] == 0x74 && w[2] == 0x61 && w[3] == 0x72 && w[4] == 0x74;
    if r {
        assert(w@ =~= start_word());
    }
    r
}

/// Whether `w` is the word `"stop"`.
fn is_stop(w: &[u8]) -> (r: bool)
    ensures
        r == (w@ == stop_word()),
{
    let r = w.len() == 4 && w[0] == 0x73 && w[1] == 0x74 && w[2] == 0x6f && w[3] == 0x70;
    if r {
        assert(w@ =~= stop_word());
    }
    r
}

/// Every word is a channel number.
pub open spec fn all_indices(ws: Seq<Seq<u8>>) -> bool {
    forall|i: int| 0 <= i < ws.len() ==> (#[trigger] parse_index(ws[i])) is Some
}

/// The channel numbers that the words spell.
pub open spec fn indices(ws: Seq<Seq<u8>>) -> Seq<usize> {
    ws.map_values(|w: Seq<u8>| parse_index(w).unwrap())
}

/// The start signals for `pins`, in order, skipping refused channels.
pub open spec fn start_signals(running: Seq<bool>, pins: Seq<usize>) -> Seq<(usize, PwmInCommand)>
    decreases pins.len(),
{
    if pins.len() == 0 {
        Seq::empty()
    } else {
        let rest = start_signals(running, pins.drop_last());
        match start_result(running, pins.last() as int) {
            Ok(c) => rest.push((pins.last(), c)),
            Err(_) => rest,
        }
    }
}

/// The stop signals for `pins`, in order, skipping channels that do not
/// exist.
pub open spec fn stop_signals(pins: Seq<usize>) -> Seq<(usize, PwmInCommand)>
    decreases pins.len(),
{
    if pins.len() == 0 {
        Seq::empty()
    } else if pins.last() < PWMIN_CHANNELS {
        stop_signals(pins.drop_last()).push((pins.last(), PwmInCommand::Stop))
    } else {
        stop_signals(pins.drop_last())
    }
}

/// The running flags once `pins` are stopped.
pub open spec fn stopped(running: Seq<bool>, pins: Seq<usize>) -> Seq<bool>
    decreases pins.len(),
{
    if pins.len() == 0 {
        running
    } else if pins.last() < PWMIN_CHANNELS {
        stopped(running, pins.drop_last()).update(pins.last() as int, false)
    } else {
        stopped(running, pins.drop_last())
    }
}

/// Runs `pwmin start <n>...` or `pwmin stop <n>...` (given the arguments
/// after the command name) and returns the signal for each channel, in
/// order. Any other sub-command, or a word that is not a channel number,
/// is an error and changes nothing.
pub fn pwmin_cmd(env: &mut PwmInShellEnv, args: &str) -> (r: Result<Vec<(usize, PwmInCommand)>, ShellError>)
    ensures
        ({
            let w = args.spec_bytes();
            let sub = command_part(w);
            let ws = words(args_part(w));
            if (sub == start_word() || sub == stop_word()) && all_indices(ws) {
                r matches Ok(v) && if sub == start_word() {
                    v@ == start_signals(old(env).running(), indices(ws)) && final(env).running() == old(
                        env,
                    ).running()
                } else {
                    v@ == stop_signals(indices(ws)) && final(env).running() == stopped(
                        old(env).running(),
                        indices(ws),
                    )
                }
            } else {
                r matches Err(ShellError::ExecuteError(code)) && code == -1 && final(env).running() == old(env).running()
            }
        }),
{
    let a = args.as_bytes();
    let k = find_space(a);
    let sub = slice_of(a, 0, k);
    let rest = if k < a.len() {
        slice_of(a, k + 1, a.len())
    } else {
        slice_of(a, 0, 0)
    };
    assert(rest@ == args_part(a@));
    let starting = is_start(sub);
    if !starting && !is_stop(sub) {
        return Err(ShellError::ExecuteError(-1));
    }
    let ws = split_words(rest);
    let ghost wv = ws@.map_values(|w: Vec<u8>| w@);
    let mut pins: Vec<usize> = Vec::new();
    let mut i: usize = 0;
    while i < ws.len()
        invariant
            i <= ws@.len(),
            wv == ws@.map_values(|w: Vec<u8>| w@),
            wv == words(args_part(args.spec_bytes())),
            sub@ == command_part(args.spec_bytes()),
            starting == (sub@ == start_word()),
            starting || sub@ == stop_word(),
            env.running() == old(env).running(),
            forall|j: int| 0 <= j < i ==> (#[trigger] parse_index(wv[j])) is Some,
            pins@ == indices(wv.subrange(0, i as int)),
        decreases ws@.len() - i,
    {
        match parse_index_bytes(ws[i].as_slice()) {
            None => {
                assert(wv[i as int] == ws@[i as int]@);
                assert(!all_indices(wv));
                return Err(ShellError::ExecuteError(-1));
            },
            Some(p) => {
                assert(wv[i as int] == ws@[i as int]@);
                pins.push(p);
                assert(indices(wv.subrange(0, i + 1)) =~= indices(wv.subrange(0, i as int)).push(p));
            },
        }
        i = i + 1;
    }
    assert(wv.subrange(0, wv.len() as int) =~= wv);
    let ghost ps = pins@;
    let ghost run0 = env.running();
    let mut out: Vec<(usize, PwmInCommand)> = Vec::new();
    let mut j: usize = 0;
    while j < pins.len()
        invariant
            j <= ps.len(),
            pins@ == ps,
            starting ==> out@ == start_signals(run0, ps.subrange(0, j as int)) && env.running() == run0,
            !starting ==> out@ == stop_signals(ps.subrange(0, j as int)) && env.running() == stopped(
                run0,
                ps.subrange(0, j as int),
            ),
        decreases ps.len() - j,
    {
        let pin = pins[j];
        let ghost pre = ps.subrange(0, j as int);
        assert(ps.subrange(0, j + 1).drop_last() =~= pre);
        assert(ps.subrange(0, j + 1).last() == pin);
        if starting {
            match env.start(pin) {
                Ok(c) => out.push((pin, c)),
                Err(_) => {},
            }
        } else {
            match env.stop(pin) {
                Some(c) => out.push((pin, c)),
                None => {},
            }
        }
        j = j + 1;
    }
    assert(ps.subrange(0, ps.len() as int) =~= ps);
    Ok(out)
}

/// Registers the `pwmin` command with handler slot `handler`.
pub fn pwmin_register_cmd(env: &mut SevenShellEnv, handler: usize) -> (r: bool)
    requires
        old(env).wf(),
    ensures
        final(env).wf(),
        named(old(env).commands(), pwmin_name()) ==> r,
        !named(old(env).commands(), pwmin_name()) ==> (r <==> old(env).commands().len()
            < crate::registry::TOTAL_CMDS),
        r ==> named(final(env).commands(), pwmin_name()),
        r ==> forall|i: int|
            has_name(final(env).commands(), pwmin_name(), i) ==> final(env).commands()[i].1 == handler,
        !r ==> final(env).commands() == old(env).commands(),
{
    proof {
        reveal_strlit("pwmin");
        vstd::string::is_ascii_spec_bytes("pwmin");
        assert("pwmin".spec_bytes() =~= pwmin_name());
    }
    env.register_cmd("pwmin", handler)
}

} // verus!
