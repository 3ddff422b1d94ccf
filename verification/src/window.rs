//! What the keys of the display ask for.

use vstd::prelude::*;

verus! {

/// A key of the display.
#[derive(Debug, Clone, Copy, PartialEq, Eq, Structural)]
pub enum Key {
    Escape,
    Space,
    Other,
}

/// What the display reports of its user.
#[derive(Debug, Clone, Copy, PartialEq, Eq, Structural)]
pub enum Input {
    /// The window was closed.
    Quit,
    /// A key went down, or repeats because it is held down.
    KeyDown { key: Key, repeat: bool },
    /// Anything else.
    Other,
}

/// What the user has set with the keys.
#[derive(Debug, Clone, Copy, PartialEq, Eq, Structural)]
pub struct Controls {
    /// Whether the sweep of the rangefinder is drawn.
    pub show_lidar: bool,
}

/// The input asks to leave: the window was closed, or Escape went down.
pub open spec fn asks_to_quit(input: Input) -> bool {
    match input {
        Input::Quit => true,
        Input::KeyDown { key: Key::Escape, .. } => true,
        _ => false,
    }
}

/// The input switches the drawing of the sweep: Space went down, and is not
/// merely held.
pub open spec fn switches_lidar(input: Input) -> bool {
    input == (Input::KeyDown { key: Key::Space, repeat: false })
}

/// The first place in `inputs` that asks to leave; their number where none
/// does.
pub open spec fn first_quit(inputs: Seq<Input>) -> int
    decreases inputs.len(),
{
    if inputs.len() == 0 {
        0
    } else if asks_to_quit(inputs[0]) {
        0
    } else {
        1 + first_quit(inputs.drop_first())
    }
}

/// Whether the sweep is drawn after the first `count` of `inputs`, none of
/// which asks to leave, where it was `shown` before them.
pub open spec fn lidar_after(shown: bool, inputs: Seq<Input>, count: int) -> bool
    decreases count,
{
    if count <= 0 {
        shown
    } else {
        let before = lidar_after(shown, inputs, count - 1);
        if switches_lidar(inputs[count - 1]) {
            !before
        } else {
            before
        }
    }
}

/// The first of `inputs` that asks to leave is found where [`first_quit`] says,
/// and none before it asks so.
pub proof fn lemma_first_quit(inputs: Seq<Input>)
    ensures
        0 <= first_quit(inputs) <= inputs.len(),
        first_quit(inputs) < inputs.len() ==> asks_to_quit(inputs[first_quit(inputs)]),
        forall|i: int| 0 <= i < first_quit(inputs) ==> !asks_to_quit(#[trigger] inputs[i]),
    decreases inputs.len(),
{
    if inputs.len() > 0 && !asks_to_quit(inputs[0]) {
        let rest = inputs.drop_first();
        lemma_first_quit(rest);
        assert forall|i: int| 0 <= i < first_quit(inputs) implies !asks_to_quit(
            #[trigger] inputs[i],
        ) by {
            if i > 0 {
                assert(inputs[i] == rest[i - 1]);
            }
        }
        if first_quit(inputs) < inputs.len() {
            assert(inputs[first_quit(inputs)] == rest[first_quit(rest)]);
        }
    }
}

impl Controls {
    /// Nothing is set: the sweep is not drawn.
    pub fn new() -> (controls: Self)
        ensures
            !controls.show_lidar,
    {
        Controls { show_lidar: false }
    }

    /// Takes the inputs in turn up to the first that asks to leave, and says
    /// whether one did. Each fresh press of Space before it switches the
    /// drawing of the sweep; what comes after it is not looked at.
    pub fn get_input(&mut self, inputs: &Vec<Input>) -> (quit: bool)
        ensures
            quit == (first_quit(inputs@) < inputs.len()),
            final(self).show_lidar == lidar_after(
                old(self).show_lidar,
                inputs@,
                first_quit(inputs@),
            ),
    {
        proof {
            lemma_first_quit(inputs@);
        }
        let mut i: usize = 0;
        while i < inputs.len()
            invariant
                i <= inputs.len(),
                i <= first_quit(inputs@),
                forall|j: int| 0 <= j < first_quit(inputs@) ==> !asks_to_quit(#[trigger] inputs@[j]),
                first_quit(inputs@) < inputs.len() ==> asks_to_quit(inputs@[first_quit(inputs@)]),
                first_quit(inputs@) <= inputs.len(),
                self.show_lidar == lidar_after(old(self).show_lidar, inputs@, i as int),
            decreases inputs.len() - i,
        {
            match inputs[i] {
                Input::Quit | Input::KeyDown { key: Key::Escape, .. } => {
                    return true;
                },
                Input::KeyDown { key: Key::Space, repeat: false } => {
                    self.show_lidar = !self.show_lidar;
                },
                _ => {},
            }
            i += 1;
        }
        false
    }
}

} // verus!
