use crate::solver::policy::Policy;
use crate::types::UNIT;
use vstd::arithmetic::div_mod::{lemma_div_is_ordered, lemma_div_multiples_vanish};
use vstd::prelude::*;

verus! {

/// How a search is run: the temperature that it starts at and the one that
/// it ends at, both in ticks; how long it may take, in ticks of a second;
/// and which musicians it draws its moves from.
#[derive(Clone, Copy, Debug, PartialEq, Eq, Structural)]
pub struct Config {
    pub start_temperature: i64,
    pub end_temperature: i64,
    pub time_limit: u64,
    pub move_policy: Policy,
}

/// The temperature that a search starts at where none is given: ten thousand.
pub const DEFAULT_START_TEMPERATURE: i64 = 10_000_000_000;

/// The temperature that a search ends at: one.
pub const END_TEMPERATURE: i64 = 1_000_000;

/// The time that a search may take where none is given: sixty seconds.
pub const DEFAULT_TIME_LIMIT: u64 = 60_000_000;

impl Config {
    /// The search cools down, to a temperature above zero, in some time.
    pub open spec fn wf(self) -> bool {
        0 < self.end_temperature <= self.start_temperature && self.time_limit > 0
    }

    /// The temperature after `elapsed` ticks: it falls evenly from the
    /// start temperature to the end temperature over the time limit, and
    /// stays there.
    pub open spec fn temperature_at(self, elapsed: int) -> int {
        if elapsed >= self.time_limit {
            self.end_temperature as int
        } else {
            self.start_temperature - ((self.start_temperature - self.end_temperature) * elapsed) / (
            self.time_limit as int)
        }
    }

    /// Whether the time is up after `elapsed` ticks.
    pub open spec fn is_over(self, elapsed: int) -> bool {
        elapsed >= self.time_limit
    }

    /// A search from `start_temperature` down to `END_TEMPERATURE` within
    /// `time_limit`, where that is a way to cool down.
    pub fn new(start_temperature: i64, time_limit: u64, move_policy: Policy) -> (r: Option<Config>)
        ensures
            r is Some <==> start_temperature >= END_TEMPERATURE && time_limit > 0,
            r matches Some(c) ==> c.wf() && c == (Config {
                start_temperature,
                end_temperature: END_TEMPERATURE,
                time_limit,
                move_policy,
            }),
    {
        if start_temperature >= END_TEMPERATURE && time_limit > 0 {
            Some(Config { start_temperature, end_temperature: END_TEMPERATURE, time_limit, move_policy })
        } else {
            None
        }
    }

    /// Whether the configuration is well formed.
    pub fn check(&self) -> (ok: bool)
        ensures
            ok == self.wf(),
    {
        0 < self.end_temperature && self.end_temperature <= self.start_temperature && self.time_limit > 0
    }

    /// `is_over`, computed.
    pub fn expired(&self, elapsed: u64) -> (over: bool)
        ensures
            over == self.is_over(elapsed as int),
    {
        elapsed >= self.time_limit
    }

    /// `temperature_at`, computed.
    pub fn temperature(&self, elapsed: u64) -> (t: i64)
        requires
            self.wf(),
        ensures
            t == self.temperature_at(elapsed as int),
            self.end_temperature <= t <= self.start_temperature,
    {
        if elapsed >= self.time_limit {
            return self.end_temperature;
        }
        let span: u128 = (self.start_temperature - self.end_temperature) as u128;
        assert(span * elapsed <= 0x7FFF_FFFF_FFFF_FFFF * 0xFFFF_FFFF_FFFF_FFFF) by (nonlinear_arith)
            requires
                0 <= span <= 0x7FFF_FFFF_FFFF_FFFF,
                0 <= elapsed <= 0xFFFF_FFFF_FFFF_FFFF,
        ;
        let fallen: u128 = (span * (elapsed as u128)) / (self.time_limit as u128);
        proof {
            self.lemma_temperature(elapsed as int);
        }
        (self.start_temperature as i128 - fallen as i128) as i64
    }

    /// The temperature starts at the start temperature, never leaves the
    /// range between the two temperatures, and is the end temperature once
    /// the time is up.
    pub proof fn lemma_temperature(self, elapsed: int)
        requires
            self.wf(),
            0 <= elapsed,
        ensures
            self.temperature_at(0) == self.start_temperature,
            self.end_temperature <= self.temperature_at(elapsed) <= self.start_temperature,
            self.is_over(elapsed) ==> self.temperature_at(elapsed) == self.end_temperature,
    {
        let span = self.start_temperature - self.end_temperature;
        let limit = self.time_limit as int;
        assert(span * 0 == 0);
        if elapsed < limit {
            assert(0 <= span * elapsed <= span * limit) by (nonlinear_arith)
                requires
                    0 <= span,
                    0 <= elapsed < limit,
            ;
            lemma_div_is_ordered(0, span * elapsed, limit);
            lemma_div_is_ordered(span * elapsed, span * limit, limit);
            lemma_div_multiples_vanish(span, limit);
            assert(span * limit == limit * span) by (nonlinear_arith);
        }
    }

    /// The temperature never rises.
    pub proof fn lemma_cooling(self, earlier: int, later: int)
        requires
            self.wf(),
            0 <= earlier <= later,
        ensures
            self.temperature_at(later) <= self.temperature_at(earlier),
    {
        let span = self.start_temperature - self.end_temperature;
        let limit = self.time_limit as int;
        self.lemma_temperature(earlier);
        self.lemma_temperature(later);
        if later < limit {
            assert(span * earlier <= span * later) by (nonlinear_arith)
                requires
                    0 <= span,
                    0 <= earlier <= later,
            ;
            lemma_div_is_ordered(span * earlier, span * later, limit);
        }
    }
}

/// Whether a move that changes the score by `delta` stands at a
/// temperature, given in ticks, against a draw between nothing and one
/// whose natural logarithm, in ticks, is `log_draw`: a move that does not
/// lower the score always does, and one that lowers it does where the
/// change over the temperature is above the logarithm of the draw, which
/// is where the exponential of the one is above the draw.
pub open spec fn stands_at(delta: int, temperature: int, log_draw: int) -> bool {
    delta >= 0 || delta * (UNIT * UNIT) > temperature * log_draw
}

/// `stands_at`, computed.
pub fn stands(delta: i128, temperature: i64, log_draw: i64) -> (r: bool)
    ensures
        r == stands_at(delta as int, temperature as int, log_draw as int),
{
    if delta >= 0 {
        return true;
    }
    assert(-0x4000_0000_0000_0000_0000_0000_0000_0000 <= temperature * log_draw
        <= 0x4000_0000_0000_0000_0000_0000_0000_0000) by (nonlinear_arith)
        requires
            -0x8000_0000_0000_0000 <= temperature <= 0x7FFF_FFFF_FFFF_FFFF,
            -0x8000_0000_0000_0000 <= log_draw <= 0x7FFF_FFFF_FFFF_FFFF,
    ;
    let product: i128 = (temperature as i128) * (log_draw as i128);
    if product >= 0 {
        assert(delta * (UNIT * UNIT) < 0) by (nonlinear_arith)
            requires
                delta < 0,
                UNIT * UNIT > 0,
        ;
        return false;
    }
    let loss: u128 = if delta == i128::MIN {
        0x8000_0000_0000_0000_0000_0000_0000_0000
    } else {
        (-delta) as u128
    };
    let room: u128 = (-product) as u128;
    let square: u128 = (UNIT as u128) * (UNIT as u128);
    let whole: u128 = room / square;
    let part: u128 = room % square;
    proof {
        vstd::arithmetic::div_mod::lemma_fundamental_div_mod(room as int, square as int);
        assert(room == square * whole + part);
        assert(square == UNIT * UNIT);
        assert(loss == -delta);
        assert(delta * (UNIT * UNIT) == -(loss * square)) by (nonlinear_arith)
            requires
                loss == -delta,
                square == UNIT * UNIT,
        ;
        if loss < whole {
            assert(loss * square < room) by (nonlinear_arith)
                requires
                    loss < whole,
                    room == square * whole + part,
                    part >= 0,
                    square > 0,
            ;
        } else if loss == whole {
            assert(loss * square == room - part) by (nonlinear_arith)
                requires
                    loss == whole,
                    room == square * whole + part,
            ;
        } else {
            assert(loss * square >= room) by (nonlinear_arith)
                requires
                    loss > whole,
                    room == square * whole + part,
                    part < square,
                    square > 0,
            ;
        }
    }
    loss < whole || (loss == whole && part > 0)
}

/// A move that stands at one temperature stands at every warmer one
/// against the same draw.
pub proof fn law_warmer_lets_more_stand(delta: int, cooler: int, warmer: int, log_draw: int)
    requires
        0 < cooler <= warmer,
        log_draw <= 0,
        stands_at(delta, cooler, log_draw),
    ensures
        stands_at(delta, warmer, log_draw),
{
    assert(warmer * log_draw <= cooler * log_draw) by (nonlinear_arith)
        requires
            cooler <= warmer,
            log_draw <= 0,
    ;
}

/// Where a move stands, every move that lowers the score less stands at
/// the same temperature against the same draw.
pub proof fn law_smaller_loss_stands(delta: int, better: int, temperature: int, log_draw: int)
    requires
        delta <= better,
        stands_at(delta, temperature, log_draw),
    ensures
        stands_at(better, temperature, log_draw),
{
    assert(delta * (UNIT * UNIT) <= better * (UNIT * UNIT)) by (nonlinear_arith)
        requires
            delta <= better,
            UNIT * UNIT > 0,
    ;
}

/// Against a draw of one, whose logarithm is nothing, no move stands that
/// lowers the score; and at a temperature above zero, a move that lowers
/// the score stands against no draw but one below one.
pub proof fn law_loss_needs_luck(delta: int, temperature: int, log_draw: int)
    requires
        delta < 0,
        temperature > 0,
        log_draw <= 0,
        stands_at(delta, temperature, log_draw),
    ensures
        log_draw < 0,
        !stands_at(delta, temperature, 0),
{
    assert(delta * (UNIT * UNIT) < 0) by (nonlinear_arith)
        requires
            delta < 0,
            UNIT * UNIT > 0,
    ;
    assert(temperature * 0 == 0);
}

impl Default for Config {
    fn default() -> (c: Config)
        ensures
            c.wf(),
            c == (Config {
                start_temperature: DEFAULT_START_TEMPERATURE,
                end_temperature: END_TEMPERATURE,
                time_limit: DEFAULT_TIME_LIMIT,
                move_policy: Policy::ScoreBiased,
            }),
    {
        Config {
            start_temperature: DEFAULT_START_TEMPERATURE,
            end_temperature: END_TEMPERATURE,
            time_limit: DEFAULT_TIME_LIMIT,
            move_policy: Policy::ScoreBiased,
        }
    }
}

} // verus!
