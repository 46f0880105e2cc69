//! Who may use the serial port.
//!
//! The port is shared by the reader, which takes events from it, and the
//! callers, which run exchanges on it. The arbiter says whose turn it is. It
//! is a plain value: the threads keep it behind a lock, make one move at a
//! time, and wait for the next move of another thread where a move tells
//! them to.

use vstd::prelude::*;

verus! {

#[derive(Clone, Copy, Debug, PartialEq, Eq, Structural)]
pub enum Holder {
    Nobody,
    Reader,
    Caller,
}

/// A move of a thread.
#[derive(Clone, Copy, Debug, PartialEq, Eq, Structural)]
pub enum Move {
    /// A caller asks for the port.
    Ask,
    /// The reader begins a round.
    ReaderRound,
    /// A caller tries to take the port.
    Take,
    /// The caller that holds the port gives it back.
    GiveBack,
}

#[derive(Clone, Copy, Debug, PartialEq, Eq, Structural)]
pub struct Arbiter {
    /// Who holds the port.
    pub holder: Holder,
    /// Whether a caller has asked for the port since the reader last gave
    /// way.
    pub wanted: bool,
}

impl Arbiter {
    /// A caller has asked for the port.
    pub open spec fn asked(self) -> Arbiter {
        Arbiter { wanted: true, ..self }
    }

    /// The reader begins a round. Where a caller has asked for the port or
    /// holds it, the reader gives way: it lets go of the port, the asking is
    /// settled, and the reader has to wait. Else the reader holds the port
    /// and may read.
    pub open spec fn reader_round(self) -> (Arbiter, bool) {
        if self.wanted || self.holder == Holder::Caller {
            (
                Arbiter {
                    holder: if self.holder == Holder::Caller {
                        Holder::Caller
                    } else {
                        Holder::Nobody
                    },
                    wanted: false,
                },
                false,
            )
        } else {
            (Arbiter { holder: Holder::Reader, ..self }, true)
        }
    }

    /// A caller tries to take the port. It gets it where nobody holds it.
    /// Else it has to wait, and its asking stands.
    pub open spec fn taken(self) -> (Arbiter, bool) {
        if self.holder == Holder::Nobody {
            (Arbiter { holder: Holder::Caller, ..self }, true)
        } else {
            (Arbiter { wanted: true, ..self }, false)
        }
    }

    /// The caller that holds the port gives it back.
    pub open spec fn given_back(self) -> Arbiter {
        if self.holder == Holder::Caller {
            Arbiter { holder: Holder::Nobody, ..self }
        } else {
            self
        }
    }

    /// The arbiter after a move, and whether the move got the port.
    pub open spec fn after(self, m: Move) -> (Arbiter, bool) {
        match m {
            Move::Ask => (self.asked(), false),
            Move::ReaderRound => self.reader_round(),
            Move::Take => self.taken(),
            Move::GiveBack => (self.given_back(), false),
        }
    }

    /// The arbiter after the moves of `moves`, one after the other.
    pub open spec fn after_all(self, moves: Seq<Move>) -> Arbiter
        decreases moves.len(),
    {
        if moves.len() == 0 {
            self
        } else {
            self.after(moves.first()).0.after_all(moves.drop_first())
        }
    }

    /// Nobody holds the port, and nobody has asked for it.
    pub fn new() -> (r: Arbiter)
        ensures
            r == (Arbiter { holder: Holder::Nobody, wanted: false }),
    {
        Arbiter { holder: Holder::Nobody, wanted: false }
    }

    /// A caller asks for the port.
    pub fn request(&mut self)
        ensures
            *final(self) == old(self).asked(),
    {
        self.wanted = true;
    }

    /// The reader begins a round. The answer says whether it may read; where
    /// it may not, it has let go of the port and has to wait for the next
    /// move of a caller.
    pub fn reader_turn(&mut self) -> (may_read: bool)
        ensures
            (*final(self), may_read) == old(self).reader_round(),
    {
        let caller_holds: bool = match self.holder {
            Holder::Caller => true,
            _ => false,
        };
        if self.wanted || caller_holds {
            if !caller_holds {
                self.holder = Holder::Nobody;
            }
            self.wanted = false;
            false
        } else {
            self.holder = Holder::Reader;
            true
        }
    }

    /// A caller tries to take the port. The answer says whether it has it;
    /// where it has not, it has to wait for the next move of another thread.
    pub fn acquire(&mut self) -> (got: bool)
        ensures
            (*final(self), got) == old(self).taken(),
    {
        match self.holder {
            Holder::Nobody => {
                self.holder = Holder::Caller;
                true
            },
            _ => {
                self.wanted = true;
                false
            },
        }
    }

    /// The caller that holds the port gives it back.
    pub fn release(&mut self)
        ensures
            *final(self) == old(self).given_back(),
    {
        match self.holder {
            Holder::Caller => {
                self.holder = Holder::Nobody;
            },
            _ => {},
        }
    }
}

/// No move of `moves` gives the port back.
pub open spec fn keeps_the_port(moves: Seq<Move>) -> bool {
    forall|i: int| 0 <= i < moves.len() ==> #[trigger] moves[i] != Move::GiveBack
}

/// The port has one holder at a time: the reader may read only where no
/// caller holds the port, and it holds it then; a caller gets the port only
/// where nobody holds it.
pub proof fn law_one_holder_at_a_time(a: Arbiter)
    ensures
        a.reader_round().1 ==> a.holder != Holder::Caller && a.reader_round().0.holder
            == Holder::Reader,
        a.taken().1 ==> a.holder == Holder::Nobody && a.taken().0.holder == Holder::Caller,
{
}

/// An exchange is not interrupted: from the moment a caller has the port
/// until it gives it back, whatever the other threads do and in whatever
/// order, the reader never gets to read and no other caller gets the port.
/// So the frames of the exchange stand together on the wire, and no event
/// is read from among them.
pub proof fn law_exchange_is_not_interrupted(a: Arbiter, moves: Seq<Move>, m: Move)
    requires
        a.holder == Holder::Caller,
        keeps_the_port(moves),
        m != Move::GiveBack,
    ensures
        a.after_all(moves).holder == Holder::Caller,
        !a.after_all(moves).after(m).1,
        a.after_all(moves).after(m).0.holder == Holder::Caller,
    decreases moves.len(),
{
    if moves.len() > 0 {
        let first = moves.first();
        let rest = moves.drop_first();
        assert(first == moves[0]);
        assert forall|i: int| 0 <= i < rest.len() implies #[trigger] rest[i]
            != Move::GiveBack by {
            assert(rest[i] == moves[i + 1]);
        }
        law_exchange_is_not_interrupted(a.after(first).0, rest, m);
    }
}

/// A caller that asks gets the port: once a caller has asked and while no
/// other caller holds the port, the reader gives way at its next round, and
/// the caller that then tries has the port.
pub proof fn law_reader_gives_way(a: Arbiter)
    requires
        a.holder != Holder::Caller,
    ensures
        !a.asked().reader_round().1,
        a.asked().reader_round().0.holder == Holder::Nobody,
        a.asked().reader_round().0.taken().1,
{
}

/// After an exchange the reader reads again: once the caller has given the
/// port back and nobody else has asked, the reader may read at its next
/// round.
pub proof fn law_reader_comes_back(a: Arbiter)
    requires
        a.holder == Holder::Caller,
        !a.wanted,
    ensures
        a.given_back().reader_round().1,
        a.given_back().reader_round().0.holder == Holder::Reader,
{
}

} // verus!
