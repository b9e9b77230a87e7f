//! The key bindings that pan the camera.
use vstd::prelude::*;

use crate::utility::input_handler::InputHandler;

verus! {

/// SDL key code of the `W` key.
pub const KEY_W: i32 = 119;

/// SDL key code of the `A` key.
pub const KEY_A: i32 = 97;

/// SDL key code of the `S` key.
pub const KEY_S: i32 = 115;

/// SDL key code of the `D` key.
pub const KEY_D: i32 = 100;

/// A direction in which the camera pans.
#[derive(Clone, Copy, Debug, PartialEq, Eq, Structural)]
pub enum Direction {
    Up,
    Left,
    Down,
    Right,
}

/// The direction that a held key pans in: `W` up, `A` left, `S` down,
/// `D` right; no other key pans.
pub open spec fn key_direction(key: i32) -> Option<Direction> {
    if key == KEY_W {
        Some(Direction::Up)
    } else if key == KEY_A {
        Some(Direction::Left)
    } else if key == KEY_S {
        Some(Direction::Down)
    } else if key == KEY_D {
        Some(Direction::Right)
    } else {
        None
    }
}

/// The pan directions of the keys `keys`, in their order, keys that do not
/// pan being skipped.
pub open spec fn directions_of(keys: Seq<i32>) -> Seq<Direction>
    decreases keys.len(),
{
    if keys.len() == 0 {
        Seq::empty()
    } else {
        let rest = directions_of(keys.drop_last());
        match key_direction(keys.last()) {
            Some(d) => rest.push(d),
            None => rest,
        }
    }
}

/// The key codes that pan: 119 (`W`), 97 (`A`), 115 (`S`) and 100 (`D`).
pub open spec fn is_pan_code() -> spec_fn(i32) -> bool {
    |k: i32| k == 119 || k == 97 || k == 115 || k == 100
}

/// The direction of a pan key code: 119 up, 97 left, 115 down, 100 right.
pub open spec fn code_direction(k: i32) -> Direction {
    if k == 119 {
        Direction::Up
    } else if k == 97 {
        Direction::Left
    } else if k == 115 {
        Direction::Down
    } else {
        Direction::Right
    }
}

/// Only `W`, `A`, `S` and `D` pan, each in its own direction: `W` (119) up,
/// `A` (97) left, `S` (115) down, `D` (100) right; every other key code
/// pans nowhere.
pub proof fn lemma_pan_keys(key: i32)
    ensures
        key == 119 ==> key_direction(key) == Some(Direction::Up),
        key == 97 ==> key_direction(key) == Some(Direction::Left),
        key == 115 ==> key_direction(key) == Some(Direction::Down),
        key == 100 ==> key_direction(key) == Some(Direction::Right),
        key != 119 && key != 97 && key != 115 && key != 100 ==> key_direction(key) is None,
        KEY_W == 119 && KEY_A == 97 && KEY_S == 115 && KEY_D == 100,
{
}

/// Pressing one more key adds its direction at the end when it is a pan
/// key, and changes nothing otherwise.
pub proof fn lemma_directions_push(keys: Seq<i32>, key: i32)
    ensures
        directions_of(keys.push(key)) == (if key == 119 {
            directions_of(keys).push(Direction::Up)
        } else if key == 97 {
            directions_of(keys).push(Direction::Left)
        } else if key == 115 {
            directions_of(keys).push(Direction::Down)
        } else if key == 100 {
            directions_of(keys).push(Direction::Right)
        } else {
            directions_of(keys)
        }),
{
    assert(keys.push(key).drop_last() =~= keys);
}

/// The pan directions of the held keys are, in order, the directions of the
/// held pan keys: one for each held `W`, `A`, `S` or `D`, repeats kept,
/// every other key skipped.
pub proof fn lemma_directions_are_held_pan_keys(keys: Seq<i32>)
    ensures
        directions_of(keys) == keys.filter(is_pan_code()).map_values(|k: i32| code_direction(k)),
        directions_of(keys).len() == keys.filter(is_pan_code()).len(),
    decreases keys.len(),
{
    reveal(Seq::filter);
    if keys.len() > 0 {
        let prefix = keys.drop_last();
        lemma_directions_are_held_pan_keys(prefix);
        assert(keys.filter(is_pan_code()) == (if is_pan_code()(keys.last()) {
            prefix.filter(is_pan_code()).push(keys.last())
        } else {
            prefix.filter(is_pan_code())
        }));
        if is_pan_code()(keys.last()) {
            assert(prefix.filter(is_pan_code()).push(keys.last()).map_values(
                |k: i32| code_direction(k),
            ) =~= prefix.filter(is_pan_code()).map_values(|k: i32| code_direction(k)).push(
                code_direction(keys.last()),
            ));
        }
    } else {
        assert(keys.filter(is_pan_code()).map_values(|k: i32| code_direction(k)) =~= Seq::<
            Direction,
        >::empty());
    }
}

/// Every held pan key pans: while `W` is held the result holds `Up`, while
/// `A` is held it holds `Left`, while `S` is held `Down`, while `D` is held
/// `Right`.
pub proof fn lemma_held_pan_key_pans(keys: Seq<i32>)
    ensures
        forall|k: i32| #[trigger] keys.contains(k) && k == 119 ==> directions_of(keys).contains(Direction::Up),
        forall|k: i32| #[trigger] keys.contains(k) && k == 97 ==> directions_of(keys).contains(Direction::Left),
        forall|k: i32| #[trigger] keys.contains(k) && k == 115 ==> directions_of(keys).contains(Direction::Down),
        forall|k: i32| #[trigger] keys.contains(k) && k == 100 ==> directions_of(keys).contains(Direction::Right),
    decreases keys.len(),
{
    if keys.len() > 0 {
        let prefix = keys.drop_last();
        lemma_held_pan_key_pans(prefix);
        lemma_directions_push(prefix, keys.last());
        assert(prefix.push(keys.last()) =~= keys);
        let d = directions_of(prefix);
        assert forall|x: Direction, y: Direction| d.contains(x) implies #[trigger] d.push(y).contains(x) by {
            let j = choose|j: int| 0 <= j < d.len() && d[j] == x;
            assert(d.push(y)[j] == x);
        }
        assert forall|y: Direction| #[trigger] d.push(y).contains(y) by {
            assert(d.push(y)[d.len() as int] == y);
        }
        assert forall|k: i32| #[trigger] keys.contains(k) implies (k == 119 ==> directions_of(keys).contains(Direction::Up))
            && (k == 97 ==> directions_of(keys).contains(Direction::Left))
            && (k == 115 ==> directions_of(keys).contains(Direction::Down))
            && (k == 100 ==> directions_of(keys).contains(Direction::Right)) by {
            let i = choose|i: int| 0 <= i < keys.len() && keys[i] == k;
            let l = keys.last();
            if i < prefix.len() {
                assert(prefix[i] == k);
                assert(prefix.contains(k));
                if l == 119 { assert(d.push(Direction::Up).contains(Direction::Up)); }
                if l == 97 { assert(d.push(Direction::Left).contains(Direction::Left)); }
                if l == 115 { assert(d.push(Direction::Down).contains(Direction::Down)); }
                if l == 100 { assert(d.push(Direction::Right).contains(Direction::Right)); }
                if k == 119 { assert(d.contains(Direction::Up)); }
                if k == 97 { assert(d.contains(Direction::Left)); }
                if k == 115 { assert(d.contains(Direction::Down)); }
                if k == 100 { assert(d.contains(Direction::Right)); }
            } else {
                assert(k == l);
                if k == 119 { assert(d.push(Direction::Up).contains(Direction::Up)); }
                if k == 97 { assert(d.push(Direction::Left).contains(Direction::Left)); }
                if k == 115 { assert(d.push(Direction::Down).contains(Direction::Down)); }
                if k == 100 { assert(d.push(Direction::Right).contains(Direction::Right)); }
            }
        }
    }
}

/// The direction that `key` pans in, if it is one of the pan keys.
pub fn pan_direction(key: i32) -> (res: Option<Direction>)
    ensures
        res == key_direction(key),
        key == 119 ==> res == Some(Direction::Up),
        key == 97 ==> res == Some(Direction::Left),
        key == 115 ==> res == Some(Direction::Down),
        key == 100 ==> res == Some(Direction::Right),
        key != 119 && key != 97 && key != 115 && key != 100 ==> res is None,
{
    if key == KEY_W {
        Some(Direction::Up)
    } else if key == KEY_A {
        Some(Direction::Left)
    } else if key == KEY_S {
        Some(Direction::Down)
    } else if key == KEY_D {
        Some(Direction::Right)
    } else {
        None
    }
}

/// The pan directions of the held keys, in the order in which the keys are
/// held; a key that is held twice pans twice.
pub fn pan_directions(input: &InputHandler) -> (res: Vec<Direction>)
    ensures
        res@ == directions_of(input@),
        res@ == input@.filter(is_pan_code()).map_values(|k: i32| code_direction(k)),
        res@.len() == input@.filter(is_pan_code()).len(),
        forall|k: i32| #[trigger] input@.contains(k) && k == 119 ==> res@.contains(Direction::Up),
        forall|k: i32| #[trigger] input@.contains(k) && k == 97 ==> res@.contains(Direction::Left),
        forall|k: i32| #[trigger] input@.contains(k) && k == 115 ==> res@.contains(Direction::Down),
        forall|k: i32| #[trigger] input@.contains(k) && k == 100 ==> res@.contains(Direction::Right),
{
    proof {
        lemma_directions_are_held_pan_keys(input@);
        lemma_held_pan_key_pans(input@);
    }
    let keys = input.active_keys();
    let len = keys.len();
    let mut res: Vec<Direction> = Vec::new();
    let mut i: usize = 0;
    while i < len
        invariant
            len == keys@.len(),
            keys@ == input@,
            i <= len,
            res@ == directions_of(keys@.take(i as int)),
        decreases len - i,
    {
        assert(keys@.take(i + 1).drop_last() =~= keys@.take(i as int));
        match pan_direction(keys[i]) {
            Some(d) => res.push(d),
            None => {},
        }
        i = i + 1;
    }
    assert(keys@.take(len as int) =~= keys@);
    res
}

} // verus!
