//! The camera's movement decisions.
//!
//! Walking keys move along the camera's flattened forward and right
//! basis vectors, vertical keys along world up.  Which keys contribute
//! which signed step is decided here, exactly; the caller scales the
//! resulting integer intent by the movement speed and the
//! floating-point basis vectors derived from yaw and pitch.

use vstd::prelude::*;

verus! {

/// A movement key that is held down during one update.
#[derive(Clone, Copy, PartialEq, Eq, Structural, Debug)]
pub enum MoveKey {
    Forward,
    Backward,
    Left,
    Right,
    Up,
    Down,
}

/// The signed contribution of one key, as
/// `(forward steps, right steps, up steps)`.
pub open spec fn key_delta(k: MoveKey) -> (int, int, int) {
    match k {
        MoveKey::Forward => (1, 0, 0),
        MoveKey::Backward => (-1, 0, 0),
        MoveKey::Left => (0, -1, 0),
        MoveKey::Right => (0, 1, 0),
        MoveKey::Up => (0, 0, 1),
        MoveKey::Down => (0, 0, -1),
    }
}

/// The summed movement intent of a set of held keys.
pub open spec fn intent_spec(keys: Seq<MoveKey>) -> (int, int, int)
    decreases keys.len(),
{
    if keys.len() == 0 {
        (0, 0, 0)
    } else {
        let rest = intent_spec(keys.drop_last());
        let d = key_delta(keys.last());
        (rest.0 + d.0, rest.1 + d.1, rest.2 + d.2)
    }
}

/// Sums the contributions of the held keys into one integer movement
/// intent `(forward, right, up)`; opposite keys cancel.
pub fn movement_intent(keys: &Vec<MoveKey>) -> (r: (i64, i64, i64))
    requires
        keys@.len() <= i64::MAX,
    ensures
        (r.0 as int, r.1 as int, r.2 as int) == intent_spec(keys@),
{
    let mut forward: i64 = 0;
    let mut right: i64 = 0;
    let mut up: i64 = 0;
    let n = keys.len();
    let mut i: usize = 0;
    while i < n
        invariant
            i <= n,
            n == keys@.len(),
            n <= i64::MAX,
            -(i as int) <= forward <= i as int,
            -(i as int) <= right <= i as int,
            -(i as int) <= up <= i as int,
            (forward as int, right as int, up as int) == intent_spec(keys@.take(i as int)),
        decreases n - i,
    {
        proof {
            assert(keys@.take(i + 1).drop_last() =~= keys@.take(i as int));
            assert(keys@.take(i + 1).last() == keys@[i as int]);
        }
        match keys[i] {
            MoveKey::Forward => { forward = forward + 1; },
            MoveKey::Backward => { forward = forward - 1; },
            MoveKey::Left => { right = right - 1; },
            MoveKey::Right => { right = right + 1; },
            MoveKey::Up => { up = up + 1; },
            MoveKey::Down => { up = up - 1; },
        }
        i = i + 1;
    }
    proof {
        assert(keys@.take(n as int) =~= keys@);
    }
    (forward, right, up)
}

} // verus!
