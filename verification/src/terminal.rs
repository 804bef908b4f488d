//! What the terminal view lists in its dialogs, and what it does for each key.

use vstd::prelude::*;

verus! {

/// An entry of a list dialog: a title to show and the id it stands for.
pub trait Listable {
    fn title(&self) -> &str;

    fn id(&self) -> usize;
}

/// A key press or mouse press that reaches the reading view.
#[derive(Clone, Copy, Debug, PartialEq, Eq, Structural)]
pub enum ReaderInput {
    Char(char),
    CtrlChar(char),
    PageDown,
    PageUp,
    Home,
    End,
    Down,
    Up,
    Right,
    Left,
    Tab,
    ShiftTab,
    Enter,
    /// A press of the left mouse button, at a column and a row of the view.
    LeftClick(usize, usize),
}

/// What the reading view does for an input.
#[derive(Clone, Copy, Debug, PartialEq, Eq, Structural)]
pub enum ReaderCommand {
    NextPage,
    PrevPage,
    /// Back to the start of the chapter.
    Top,
    /// On to the last page of the chapter.
    Bottom,
    StepNext,
    StepPrev,
    /// The search again, forward or backward.
    SearchAgain(bool),
    /// The next or the previous chapter.
    SwitchChapter(bool),
    /// Back or forward in the trace of visited places.
    GotoTrace(bool),
    NextLink,
    PrevLink,
    /// The highlighted link is followed.
    GotoLink,
    /// The link under the pointer is followed.
    Click(usize, usize),
}

/// The command of each input the reading view handles; `None` for an input it leaves to
/// others.
pub open spec fn command_spec(input: ReaderInput) -> Option<ReaderCommand> {
    match input {
        ReaderInput::Char(' ') | ReaderInput::PageDown => Some(ReaderCommand::NextPage),
        ReaderInput::PageUp => Some(ReaderCommand::PrevPage),
        ReaderInput::Home => Some(ReaderCommand::Top),
        ReaderInput::End => Some(ReaderCommand::Bottom),
        ReaderInput::Down => Some(ReaderCommand::StepNext),
        ReaderInput::Up => Some(ReaderCommand::StepPrev),
        ReaderInput::Char('n') => Some(ReaderCommand::SearchAgain(true)),
        ReaderInput::Char('N') => Some(ReaderCommand::SearchAgain(false)),
        ReaderInput::CtrlChar('d') => Some(ReaderCommand::SwitchChapter(true)),
        ReaderInput::CtrlChar('b') => Some(ReaderCommand::SwitchChapter(false)),
        ReaderInput::Right => Some(ReaderCommand::GotoTrace(false)),
        ReaderInput::Left => Some(ReaderCommand::GotoTrace(true)),
        ReaderInput::Tab => Some(ReaderCommand::NextLink),
        ReaderInput::ShiftTab => Some(ReaderCommand::PrevLink),
        ReaderInput::Enter => Some(ReaderCommand::GotoLink),
        ReaderInput::LeftClick(x, y) => Some(ReaderCommand::Click(x, y)),
        _ => None,
    }
}

/// The command for an input of the reading view: space and page down turn the page,
/// `n` and `N` search again, ctrl-d and ctrl-b switch chapters, left and right walk the
/// trace, tab and shift-tab move between links, enter or a click follows one.
pub fn reader_command(input: ReaderInput) -> (c: Option<ReaderCommand>)
    ensures
        c == command_spec(input),
{
    match input {
        ReaderInput::Char(' ') | ReaderInput::PageDown => Some(ReaderCommand::NextPage),
        ReaderInput::PageUp => Some(ReaderCommand::PrevPage),
        ReaderInput::Home => Some(ReaderCommand::Top),
        ReaderInput::End => Some(ReaderCommand::Bottom),
        ReaderInput::Down => Some(ReaderCommand::StepNext),
        ReaderInput::Up => Some(ReaderCommand::StepPrev),
        ReaderInput::Char('n') => Some(ReaderCommand::SearchAgain(true)),
        ReaderInput::Char('N') => Some(ReaderCommand::SearchAgain(false)),
        ReaderInput::CtrlChar('d') => Some(ReaderCommand::SwitchChapter(true)),
        ReaderInput::CtrlChar('b') => Some(ReaderCommand::SwitchChapter(false)),
        ReaderInput::Right => Some(ReaderCommand::GotoTrace(false)),
        ReaderInput::Left => Some(ReaderCommand::GotoTrace(true)),
        ReaderInput::Tab => Some(ReaderCommand::NextLink),
        ReaderInput::ShiftTab => Some(ReaderCommand::PrevLink),
        ReaderInput::Enter => Some(ReaderCommand::GotoLink),
        ReaderInput::LeftClick(x, y) => Some(ReaderCommand::Click(x, y)),
        _ => None,
    }
}

} // verus!
