//! Normalized discrete key events, and a pressed-key lookup used by the
//! demo scenes that poll the keyboard.

use vstd::prelude::*;

verus! {

/// The key codes the game and the level editor react to; every other key
/// arrives as `Other`.
#[derive(Clone, Copy, PartialEq, Eq, Structural, Debug)]
pub enum KeyCode {
    KeyB,
    KeyC,
    KeyG,
    KeyP,
    KeyQ,
    KeyS,
    Other,
}

/// The pressed state recorded for `key`: the value of its first entry in
/// the table, or false when the table has none.
pub open spec fn key_lookup(keys: Seq<(KeyCode, bool)>, key: KeyCode) -> bool
    decreases keys.len(),
{
    if keys.len() == 0 {
        false
    } else if keys[0].0 == key {
        keys[0].1
    } else {
        key_lookup(keys.drop_first(), key)
    }
}

/// Look a key up in a pressed-state table.
pub fn is_key_pressed(keys: &Vec<(KeyCode, bool)>, key: &KeyCode) -> (r: bool)
    ensures
        r == key_lookup(keys@, *key),
{
    let mut i: usize = 0;
    proof {
        assert(keys@.skip(0) =~= keys@);
    }
    while i < keys.len()
        invariant
            i <= keys.len(),
            key_lookup(keys@, *key) == key_lookup(keys@.skip(i as int), *key),
        decreases keys.len() - i,
    {
        let (k, v) = keys[i];
        proof {
            assert(keys@.skip(i as int).drop_first() =~= keys@.skip(i + 1));
            assert(keys@.skip(i as int)[0] == keys@[i as int]);
        }
        if k == *key {
            return v;
        }
        i += 1;
    }
    proof {
        assert(keys@.skip(keys@.len() as int).len() == 0);
    }
    false
}

} // verus!
