//! Shared per-cycle resources: the command handed in by the input
//! collaborator, the exit flag, and the narration logs handed out to the
//! message-log collaborator.

use vstd::prelude::*;

use crate::color::Color;

verus! {

/// One discrete command per turn cycle, from the closed command set.
#[derive(Clone, Copy, Debug, PartialEq, Eq, Structural)]
pub enum VirtualKey {
    NoAction,
    MoveUp,
    MoveDown,
    MoveLeft,
    MoveRight,
    Exit,
    PickItem,
    DropItem,
}

/// The most recent input observed between cycles: at most one key command
/// and at most one mouse position.
#[derive(Debug)]
pub struct InputMapping {
    pub key: Option<VirtualKey>,
    pub mouse: Option<(i32, i32)>,
}

impl Default for InputMapping {
    fn default() -> (d: Self)
        ensures
            d.key is None,
            d.mouse is None,
    {
        InputMapping { key: None, mouse: None }
    }
}

/// Narration lines produced by combat and death, as plain text for a
/// message-log collaborator.
#[derive(Debug)]
pub struct MesLogs {
    pub messages: Vec<String>,
    pub logs: Vec<String>,
}

impl Default for MesLogs {
    fn default() -> (d: Self)
        ensures
            d.messages@ == Seq::<String>::empty(),
            d.logs@ == Seq::<String>::empty(),
    {
        MesLogs { messages: Vec::new(), logs: Vec::new() }
    }
}

impl MesLogs {
    pub fn new() -> (d: Self)
        ensures
            d.messages@ == Seq::<String>::empty(),
            d.logs@ == Seq::<String>::empty(),
    {
        MesLogs { messages: Vec::new(), logs: Vec::new() }
    }

    /// The narration lines as sequences of characters.
    pub open spec fn lines(self) -> Seq<Seq<char>> {
        self.messages.deep_view()
    }

    /// Append one narration line.
    pub fn emit(&mut self, line: String)
        ensures
            final(self).lines() == old(self).lines().push(line@),
            final(self).logs == old(self).logs,
    {
        self.messages.push(line);
        proof {
            assert(self.lines() =~= old(self).lines().push(line@));
        }
    }
}

/// Set once the player asks to leave; the turn engine's terminal state.
#[derive(Debug)]
pub struct PlayerExit(pub bool);

impl Default for PlayerExit {
    fn default() -> (d: Self)
        ensures
            !d.0,
    {
        PlayerExit(false)
    }
}

/// The HUD message buffer: narration text with a color hint, newest last.
pub type Messages = Vec<(String, Color)>;

/// Most messages the HUD panel shows at once.
pub const MSG_HEIGHT: usize = 6;

/// Append a line to the HUD buffer, dropping the oldest line once the
/// buffer is full.
pub fn add_message(messages: &mut Messages, message: String, color: Color)
    ensures
        old(messages)@.len() != MSG_HEIGHT ==> final(messages)@ == old(messages)@.push(
            (message, color),
        ),
        old(messages)@.len() == MSG_HEIGHT ==> final(messages)@ == old(messages)@.subrange(
            1,
            old(messages)@.len() as int,
        ).push((message, color)),
{
    if messages.len() == MSG_HEIGHT {
        messages.remove(0);
    }
    messages.push((message, color));
    proof {
        if old(messages)@.len() == MSG_HEIGHT {
            assert(messages@ =~= old(messages)@.subrange(1, old(messages)@.len() as int).push(
                (message, color),
            ));
        }
    }
}

} // verus!
