//! The guard that a parser asks before each recursive production.
use vstd::prelude::*;

use crate::floor;
use crate::floor::HostStack;
use crate::frame::{ParserStackFrame, PARSER_STACK_BUDGET};
use crate::host::{current_stack_address, BuildProfile};

verus! {

/// Marker returned when a recursion limit is reached, be it the weighted
/// budget or the physical backstop.
#[derive(Clone, Copy, Debug, PartialEq, Eq, Structural)]
pub struct ParserStackOverflow;

/// What a guard stands at.
pub struct GuardState {
    /// Weighted cost of the productions entered and not left.
    pub logical: nat,
    /// Lowest address of the stack.
    pub floor: nat,
    /// Bytes above the floor that the parser stays clear of.
    pub reserve: nat,
}

impl GuardState {
    /// The charges never exceed the budget.
    pub open spec fn valid(self) -> bool {
        self.logical <= PARSER_STACK_BUDGET
    }

    /// The weighted budget has room for one more edge.
    pub open spec fn affords(self, frame: ParserStackFrame) -> bool {
        self.logical + frame.spec_weight() <= PARSER_STACK_BUDGET
    }

    /// A stack that has grown down to `address` has not reached the reserve.
    pub open spec fn clears(self, address: usize) -> bool {
        address > self.floor + self.reserve
    }

    /// Both limits allow one more edge when the stack has grown down to
    /// `address`.
    pub open spec fn admits(self, frame: ParserStackFrame, address: usize) -> bool {
        self.affords(frame) && self.clears(address)
    }

    /// The state with `weight` more charged.
    pub open spec fn charged(self, weight: nat) -> GuardState {
        GuardState { logical: self.logical + weight, ..self }
    }

    /// The state with `weight` given back, or with nothing charged if less
    /// than that was.
    pub open spec fn released(self, weight: nat) -> GuardState {
        GuardState {
            logical: if self.logical >= weight {
                (self.logical - weight) as nat
            } else {
                0
            },
            ..self
        }
    }
}

/// The value that `source` gives when it is called, known to have come from
/// that call.
fn drawn<F: Fn() -> usize>(source: F) -> (value: usize)
    requires
        call_requires(source, ()),
    ensures
        call_ensures(source, (), value),
{
    source()
}

/// Owns the two recursion limits of one parse.
pub struct ParserStackGuard {
    logical: u64,
    floor: usize,
    reserve: usize,
}

impl View for ParserStackGuard {
    type V = GuardState;

    closed spec fn view(&self) -> GuardState {
        GuardState {
            logical: self.logical as nat,
            floor: self.floor as nat,
            reserve: self.reserve as nat,
        }
    }
}

impl ParserStackGuard {
    #[verifier::type_invariant]
    spec fn within_budget(self) -> bool {
        self.logical <= PARSER_STACK_BUDGET
    }

    /// What the guard of a parse that starts at `entry` stands at.
    pub open spec fn fresh(entry: usize, host: HostStack, profile: BuildProfile) -> GuardState {
        GuardState {
            logical: 0,
            floor: floor::floor_below(entry, host, profile) as nat,
            reserve: profile.spec_stack_reserve() as nat,
        }
    }

    /// The guard of a parse that starts where the stack has grown down to
    /// `entry`.
    pub fn starting_at(entry: usize, host: HostStack, profile: BuildProfile) -> (guard: Self)
        ensures
            guard@ == Self::fresh(entry, host, profile),
            guard@.logical == 0,
            guard@.floor == floor::floor_below(entry, host, profile),
    {
        ParserStackGuard {
            logical: 0,
            floor: floor::stack_floor(entry, host, profile),
            reserve: profile.stack_reserve(),
        }
    }

    /// The guard of a parse that starts here, on the calling thread: the entry
    /// point is where [`current_stack_address`] finds the stack.
    pub fn new(host: HostStack, profile: BuildProfile) -> (guard: Self)
        ensures
            exists|entry: usize|
                call_ensures(current_stack_address, (), entry) && guard@ == #[trigger] Self::fresh(
                    entry,
                    host,
                    profile,
                ),
    {
        let entry: usize = drawn(current_stack_address);
        Self::starting_at(entry, host, profile)
    }

    /// Charges one edge when the stack has grown down to `address`. See
    /// [`Self::enter`].
    pub fn enter_at(&mut self, frame: ParserStackFrame, address: usize) -> (entered: Result<
        u64,
        ParserStackOverflow,
    >)
        ensures
            entered is Ok <==> old(self)@.admits(frame, address),
            entered is Ok <==> old(self)@.logical + frame.spec_weight() <= 0x1_0000_0000 && address
                - old(self)@.floor > old(self)@.reserve,
            entered matches Ok(weight) ==> weight == frame.spec_weight() && final(self)@ == old(
                self,
            )@.charged(weight as nat),
            entered is Err ==> final(self)@ == old(self)@,
            old(self)@.valid() && final(self)@.valid(),
    {
        proof {
            use_type_invariant(&*self);
        }
        let weight: u64 = frame.weight();
        if self.logical.saturating_add(weight) > PARSER_STACK_BUDGET {
            return Err(ParserStackOverflow);
        }
        if address <= self.floor.saturating_add(self.reserve) {
            return Err(ParserStackOverflow);
        }
        self.logical = self.logical + weight;
        Ok(weight)
    }

    /// Charges one recursive production before the parser descends into it.
    /// Returns the charged weight, which the caller gives back with
    /// [`Self::leave`] on the way up from a successful parse.
    ///
    /// Whether the stack clears the reserve is judged at the address that
    /// [`current_stack_address`] finds, which is up to the machine;
    /// [`Self::enter_at`] says what follows from each address.
    pub fn enter(&mut self, frame: ParserStackFrame) -> (entered: Result<u64, ParserStackOverflow>)
        ensures
            exists|address: usize|
                call_ensures(current_stack_address, (), address) && (
                entered is Ok <==> #[trigger] old(self)@.admits(frame, address)),
            !old(self)@.affords(frame) ==> entered is Err,
            entered matches Ok(weight) ==> weight == frame.spec_weight() && final(self)@ == old(
                self,
            )@.charged(weight as nat),
            entered is Err ==> final(self)@ == old(self)@,
            old(self)@.valid() && final(self)@.valid(),
    {
        let address: usize = drawn(current_stack_address);
        self.enter_at(frame, address)
    }

    /// Gives back the weight that a successful [`Self::enter`] charged.
    ///
    /// A production that fails abandons the whole parse, so its charge stays
    /// on the guard.
    pub fn leave(&mut self, weight: u64)
        ensures
            final(self)@ == old(self)@.released(weight as nat),
            old(self)@.logical >= weight ==> final(self)@.logical == old(self)@.logical - weight,
            old(self)@.logical < weight ==> final(self)@.logical == 0,
            old(self)@.valid() && final(self)@.valid(),
    {
        proof {
            use_type_invariant(&*self);
        }
        self.logical = self.logical.saturating_sub(weight);
    }
}

} // verus!
