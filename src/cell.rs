//! The state of a single cell and the transition rule of the automaton.

use rand::Rng;
use vstd::prelude::*;

verus! {

/// The state of one cell.
#[derive(Debug, Copy, Clone, PartialEq, Eq, Structural)]
pub enum Life {
    Alive,
    Dead,
}

/// The next state of a cell in state `c` that has `n` live neighbours:
/// a live cell survives with two or three live neighbours, a dead cell
/// comes alive with exactly three.
pub open spec fn next_state(c: Life, n: int) -> Life {
    match c {
        Life::Alive => if n == 2 || n == 3 { Life::Alive } else { Life::Dead },
        Life::Dead => if n == 3 { Life::Alive } else { Life::Dead },
    }
}

/// The state that a draw from `{0, 1}` stands for.
pub open spec fn state_of_draw(d: u32) -> Life {
    if d == 0 { Life::Alive } else { Life::Dead }
}

/// Relies on rand::thread_rng and rand::Rng::gen_range (rand 0.7): the
/// value returned lies in `[0, high)`; it panics only when `0 >= high`.
#[verifier::external_body]
pub(crate) fn draw_below(high: u32) -> (r: u32)
    requires
        0 < high,
    ensures
        r < high,
{
    rand::thread_rng().gen_range(0, high)
}

impl Life {
    /// The state of this cell in the next generation, given how many of
    /// its neighbours are alive now.
    pub fn advance(self, neighbours: usize) -> (r: Self)
        ensures
            r == next_state(self, neighbours as int),
            r == Life::Alive <==> (self == Life::Alive && (neighbours == 2 || neighbours == 3))
                || (self == Life::Dead && neighbours == 3),
    {
        match self {
            Life::Alive => if neighbours == 2 || neighbours == 3 { Life::Alive } else { Life::Dead },
            Life::Dead => if neighbours == 3 { Life::Alive } else { Life::Dead },
        }
    }

    /// The state that a uniform draw from `{0, 1}` stands for: `0` is
    /// alive, anything else dead.
    pub fn from_draw(d: u32) -> (r: Self)
        ensures
            r == state_of_draw(d),
    {
        if d == 0 { Life::Alive } else { Life::Dead }
    }

    /// A state chosen uniformly at random.
    pub fn random() -> (r: Self)
        ensures
            exists|d: u32| d < 2 && r == state_of_draw(d),
    {
        let d = draw_below(2);
        let r = Life::from_draw(d);
        assert(d < 2 && r == state_of_draw(d));
        r
    }
}

} // verus!
