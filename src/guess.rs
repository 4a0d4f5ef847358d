use rand::Rng;
use vstd::prelude::*;
use crate::text::{number_u64, parse_trimmed, trim_spaces};

verus! {

/// An argument that is not a non-negative integer that fits in a `u32`.
#[derive(Debug)]
pub enum ArgsError {
    /// The text that could not be read, as it was given.
    ParseError(String),
}

/// Bounds that leave no number to guess: `lower` is not below `upper`.
#[derive(Debug, Clone, Copy, PartialEq, Eq, Structural)]
pub enum RangeError {
    Empty { lower: u32, upper: u32 },
}

/// What the player learns from one guess.
#[derive(Debug, Clone, Copy, PartialEq, Eq, Structural)]
pub enum Feedback {
    TooLow,
    TooHigh,
    /// The guess was right, after this many tries.
    Won(usize),
}

/// How a finished game ended.
#[derive(Debug, Clone, Copy, PartialEq, Eq, Structural)]
pub enum Outcome {
    Won,
    /// The limit of tries was reached without a right guess.
    Exhausted,
}

/// What `t` reads as, without the whitespace at its ends, where it fits in a `u32`.
pub open spec fn int_of(t: Seq<char>) -> Option<u32> {
    match number_u64(trim_spaces(t)) {
        Some(v) => if v <= u32::MAX {
            Some(v as u32)
        } else {
            None
        },
        None => None,
    }
}

/// Reads `num`, without the whitespace at its ends, as an integer of `0 ..= u32::MAX`.
pub fn check_for_int(num: &str) -> (r: Result<u32, ArgsError>)
    ensures
        int_of(num@) matches Some(v) ==> r == Ok::<u32, ArgsError>(v),
        int_of(num@) is None ==> (r matches Err(ArgsError::ParseError(t)) && t@ == num@),
{
    match parse_trimmed(num) {
        Some(v) => if v <= u32::MAX as u64 {
            return Ok(v as u32);
        },
        None => {},
    }
    Err(ArgsError::ParseError(num.to_owned()))
}

/// Accepts the bounds of a game only where `lower < upper`.
pub fn check_range(lower: u32, upper: u32) -> (r: Result<(), RangeError>)
    ensures
        r is Ok <==> lower < upper,
        r is Err ==> r == Err::<(), RangeError>(RangeError::Empty { lower, upper }),
{
    if lower < upper {
        Ok(())
    } else {
        Err(RangeError::Empty { lower, upper })
    }
}

/// Relies on rand's `thread_rng().gen_range(lower..upper)`: a value drawn from
/// `lower .. upper`; it panics on an empty range, which `requires` leaves out.
#[verifier::external_body]
fn random_between(lower: u32, upper: u32) -> (r: u32)
    requires
        lower < upper,
    ensures
        lower <= r < upper,
{
    rand::thread_rng().gen_range(lower..upper)
}

/// One game: a secret of `lower .. upper` to guess, in at most `max_tries`
/// tries (no limit where it is zero).
pub struct GuessSession {
    pub lower: u32,
    pub upper: u32,
    pub max_tries: usize,
    pub secret: u32,
    pub tries_used: usize,
    /// `None` while the game goes on.
    pub outcome: Option<Outcome>,
}

impl GuessSession {
    pub open spec fn wf(&self) -> bool {
        &&& self.lower <= self.secret < self.upper
        &&& self.max_tries > 0 ==> self.tries_used <= self.max_tries
        &&& self.outcome is None && self.max_tries > 0 ==> self.tries_used < self.max_tries
        &&& self.outcome == Some(Outcome::Exhausted) ==> self.max_tries > 0 && self.tries_used
            == self.max_tries
    }

    /// A game with a secret already chosen.
    pub fn new(lower: u32, upper: u32, max_tries: usize, secret: u32) -> (r: GuessSession)
        requires
            lower <= secret < upper,
        ensures
            r.wf(),
            r.lower == lower,
            r.upper == upper,
            r.max_tries == max_tries,
            r.secret == secret,
            r.tries_used == 0,
            r.outcome is None,
    {
        GuessSession { lower, upper, max_tries, secret, tries_used: 0, outcome: None }
    }

    /// Checks the bounds, and only where they are valid draws a secret from
    /// `lower .. upper` and starts the game.
    pub fn start(lower: u32, upper: u32, max_tries: usize) -> (r: Result<GuessSession, RangeError>)
        ensures
            r is Err <==> lower >= upper,
            r is Err ==> r == Err::<GuessSession, RangeError>(RangeError::Empty { lower, upper }),
            r matches Ok(s) ==> {
                &&& s.wf()
                &&& s.lower == lower
                &&& s.upper == upper
                &&& s.max_tries == max_tries
                &&& s.tries_used == 0
                &&& s.outcome is None
            },
    {
        match check_range(lower, upper) {
            Ok(()) => {
                let secret = random_between(lower, upper);
                Ok(GuessSession::new(lower, upper, max_tries, secret))
            },
            Err(e) => Err(e),
        }
    }

    pub fn is_finished(&self) -> (r: bool)
        ensures
            r == self.outcome is Some,
    {
        self.outcome.is_some()
    }

    /// Takes one guess: counts the try, compares the guess with the secret, and
    /// ends the game on a right guess or when the limit of tries is reached.
    pub fn guess(&mut self, g: u32) -> (f: Feedback)
        requires
            old(self).wf(),
            old(self).outcome is None,
            old(self).max_tries > 0 || old(self).tries_used < usize::MAX,
        ensures
            final(self).wf(),
            final(self).lower == old(self).lower,
            final(self).upper == old(self).upper,
            final(self).max_tries == old(self).max_tries,
            final(self).secret == old(self).secret,
            final(self).tries_used == old(self).tries_used + 1,
            f == (if g < old(self).secret {
                Feedback::TooLow
            } else if g > old(self).secret {
                Feedback::TooHigh
            } else {
                Feedback::Won(final(self).tries_used)
            }),
            final(self).outcome == (if g == old(self).secret {
                Some(Outcome::Won)
            } else if old(self).max_tries > 0 && final(self).tries_used == old(self).max_tries {
                Some(Outcome::Exhausted)
            } else {
                None
            }),
    {
        self.tries_used = self.tries_used + 1;
        if g == self.secret {
            self.outcome = Some(Outcome::Won);
            return Feedback::Won(self.tries_used);
        }
        if self.max_tries > 0 && self.tries_used == self.max_tries {
            self.outcome = Some(Outcome::Exhausted);
        }
        if g < self.secret {
            Feedback::TooLow
        } else {
            Feedback::TooHigh
        }
    }
}

} // verus!
