use vstd::prelude::*;

use crate::primitives::Point;

verus! {

#[derive(Clone, Copy, Debug, PartialEq, Eq, Structural, Hash)]
pub enum KeyboardModifier {
    Shift,
    Control,
    Alt,
    Super,
}

/// A keyboard key, by the platform's key code.
#[derive(Clone, Copy, Debug, PartialEq, Eq, Structural, Hash)]
pub struct KeyboardKey(pub u32);

/// A mouse button, by the platform's button number.
#[derive(Clone, Copy, Debug, PartialEq, Eq, Structural, Hash)]
pub struct MouseButton(pub u32);

/// One input sample of a frame.
#[derive(Clone, Copy, Debug, PartialEq, Eq, Structural, Hash)]
pub enum InputEvent {
    KeyPress(KeyboardKey),
    KeyDown(KeyboardKey),
    KeyRelease(KeyboardKey),
    KeyModifier(KeyboardModifier),
    MouseButtonPress(MouseButton),
    MouseButtonDown(MouseButton),
    MouseButtonRelease(MouseButton),
    MouseScrollUp,
    MouseScrollDown,
    MouseRealMove(Point),
    MouseCanvasMove(Point),
}

/// The effects that a combination of inputs produces.
pub struct KeyBinding<A> {
    /// Inputs that must all be present in a frame.
    pub keys: Vec<InputEvent>,
    pub effects: Vec<A>,
}

/// Whether every input of `keys` occurs in `events`.
pub open spec fn binding_matches(keys: Seq<InputEvent>, events: Seq<InputEvent>) -> bool {
    forall|i: int| 0 <= i < keys.len() ==> events.contains(#[trigger] keys[i])
}

/// The effects of the bindings that match `events`, in binding order.
pub open spec fn mapped_effects<A>(bindings: Seq<KeyBinding<A>>, events: Seq<InputEvent>) -> Seq<A>
    decreases bindings.len(),
{
    if bindings.len() == 0 {
        Seq::empty()
    } else {
        let rest = mapped_effects(bindings.drop_last(), events);
        let b = bindings.last();
        if binding_matches(b.keys@, events) {
            rest + b.effects@
        } else {
            rest
        }
    }
}

/// Turns a frame's inputs into effects through key bindings.
#[derive(Debug)]
pub struct InputMapper;

impl InputMapper {
    fn matches(keys: &Vec<InputEvent>, events: &Vec<InputEvent>) -> (r: bool)
        ensures
            r == binding_matches(keys@, events@),
    {
        let mut i: usize = 0;
        while i < keys.len()
            invariant
                i <= keys@.len(),
                forall|k: int| 0 <= k < i ==> events@.contains(#[trigger] keys@[k]),
            decreases keys@.len() - i,
        {
            let key = keys[i];
            let mut found = false;
            let mut j: usize = 0;
            while j < events.len()
                invariant
                    j <= events@.len(),
                    found ==> events@.contains(key),
                    !found ==> forall|t: int| 0 <= t < j ==> events@[t] != key,
                decreases events@.len() - j,
            {
                if events[j] == key {
                    found = true;
                }
                j = j + 1;
            }
            if !found {
                return false;
            }
            i = i + 1;
        }
        true
    }

    /// The effects of every binding whose inputs all occur in `input_events`,
    /// binding after binding.
    pub fn map<A: Copy>(&self, key_bindings: &Vec<KeyBinding<A>>, input_events: Vec<InputEvent>) -> (r:
        Vec<A>)
        ensures
            r@ == mapped_effects(key_bindings@, input_events@),
    {
        let mut fx: Vec<A> = Vec::new();
        let mut i: usize = 0;
        while i < key_bindings.len()
            invariant
                i <= key_bindings@.len(),
                fx@ == mapped_effects(key_bindings@.subrange(0, i as int), input_events@),
            decreases key_bindings@.len() - i,
        {
            let b = &key_bindings[i];
            let ghost before = fx@;
            if Self::matches(&b.keys, &input_events) {
                let mut j: usize = 0;
                while j < b.effects.len()
                    invariant
                        j <= b.effects@.len(),
                        fx@ == before + b.effects@.subrange(0, j as int),
                    decreases b.effects@.len() - j,
                {
                    fx.push(b.effects[j]);
                    j = j + 1;
                    assert(fx@ =~= before + b.effects@.subrange(0, j as int));
                }
                assert(b.effects@.subrange(0, b.effects@.len() as int) =~= b.effects@);
            }
            proof {
                let s = key_bindings@.subrange(0, i + 1);
                assert(s.drop_last() =~= key_bindings@.subrange(0, i as int));
                assert(s.last() == key_bindings@[i as int]);
            }
            i = i + 1;
        }
        assert(key_bindings@.subrange(0, key_bindings@.len() as int) =~= key_bindings@);
        fx
    }
}

} // verus!
