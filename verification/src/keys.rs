//! Keys and mouse buttons, and what they are bound to on the main screen.

use vstd::prelude::*;

verus! {

/// A key, as far as the dashboard tells them apart.
#[derive(Debug, Clone, Copy, PartialEq, Eq, Structural)]
pub enum KeyCode {
    Char(char),
    Up,
    Down,
    PageUp,
    PageDown,
    Home,
    End,
    Enter,
    Backspace,
    Esc,
    /// A key that nothing is bound to.
    Other,
}

/// The modifiers that are held down with a key.
#[derive(Debug, Clone, Copy, PartialEq, Eq, Structural)]
pub struct KeyModifiers {
    pub shift: bool,
    pub control: bool,
    pub alt: bool,
    pub logo: bool,
    pub hyper: bool,
    pub meta: bool,
}

impl KeyModifiers {
    /// No modifier is held down.
    pub open spec fn plain(self) -> bool {
        !self.shift && !self.control && !self.alt && !self.logo && !self.hyper && !self.meta
    }

    /// Control is held down, and nothing else.
    pub open spec fn just_control(self) -> bool {
        !self.shift && self.control && !self.alt && !self.logo && !self.hyper && !self.meta
    }

    pub fn none() -> (r: Self)
        ensures
            r.plain(),
    {
        KeyModifiers {
            shift: false,
            control: false,
            alt: false,
            logo: false,
            hyper: false,
            meta: false,
        }
    }

    pub fn control() -> (r: Self)
        ensures
            r.just_control(),
    {
        KeyModifiers { control: true, ..KeyModifiers::none() }
    }

    pub fn is_none(self) -> (r: bool)
        ensures
            r == self.plain(),
    {
        !self.shift && !self.control && !self.alt && !self.logo && !self.hyper && !self.meta
    }

    pub fn is_control(self) -> (r: bool)
        ensures
            r == self.just_control(),
    {
        !self.shift && self.control && !self.alt && !self.logo && !self.hyper && !self.meta
    }

    /// Whether a character typed with these modifiers is text.
    pub fn types_text(self) -> (r: bool)
        ensures
            r == (!self.control && !self.alt),
    {
        !self.control && !self.alt
    }
}

#[derive(Debug, Clone, Copy, PartialEq, Eq, Structural)]
pub enum MouseButton {
    Left,
    Right,
    Middle,
}

#[derive(Debug, Clone, Copy, PartialEq, Eq, Structural)]
pub enum MouseEventKind {
    Down(MouseButton),
    Up(MouseButton),
    Drag(MouseButton),
    /// A movement without a button, or the wheel.
    Other,
}

/// The hosts that a command is for.
#[derive(Debug, Clone, Copy, PartialEq, Eq, Structural)]
pub enum Scope {
    /// Those under the selected sidebar row.
    Selected,
    All,
}

/// What a key asks for on the main screen.
#[derive(Debug, Clone, Copy, PartialEq, Eq, Structural)]
pub enum Command {
    Up,
    Down,
    Search,
    SecurityUpgrade(Scope),
    Update(Scope),
    Upgrade(Scope),
    FullUpgrade(Scope),
    AutoRemove(Scope),
    PurgeRc,
    Reboot,
    ReviewConffiles,
    ViewTask,
    Zoom,
    Quit,
}

/// The command that a key is bound to on the main screen. Lower-case letters
/// that act on hosts count only without modifiers.
pub open spec fn binding(code: KeyCode, modifiers: KeyModifiers) -> Option<Command> {
    match code {
        KeyCode::Up => Some(Command::Up),
        KeyCode::Down => Some(Command::Down),
        KeyCode::Enter => Some(Command::ViewTask),
        KeyCode::Esc => Some(Command::Quit),
        KeyCode::Char(c) => if c == '/' {
            Some(Command::Search)
        } else if c == 'S' {
            Some(Command::SecurityUpgrade(Scope::All))
        } else if c == 'R' {
            Some(Command::Update(Scope::All))
        } else if c == 'U' {
            Some(Command::Upgrade(Scope::All))
        } else if c == 'F' {
            Some(Command::FullUpgrade(Scope::All))
        } else if c == 'A' {
            Some(Command::AutoRemove(Scope::All))
        } else if c == 'b' {
            Some(Command::Reboot)
        } else if c == 't' {
            Some(Command::ViewTask)
        } else if c == 'q' {
            Some(Command::Quit)
        } else if c == 'c' && modifiers.just_control() {
            Some(Command::Quit)
        } else if modifiers.plain() {
            plain_binding(c)
        } else {
            None
        },
        _ => None,
    }
}

/// The command of a letter that counts only without modifiers.
pub open spec fn plain_binding(c: char) -> Option<Command> {
    if c == 'k' {
        Some(Command::Up)
    } else if c == 'j' {
        Some(Command::Down)
    } else if c == 's' {
        Some(Command::SecurityUpgrade(Scope::Selected))
    } else if c == 'r' {
        Some(Command::Update(Scope::Selected))
    } else if c == 'u' {
        Some(Command::Upgrade(Scope::Selected))
    } else if c == 'f' {
        Some(Command::FullUpgrade(Scope::Selected))
    } else if c == 'a' {
        Some(Command::AutoRemove(Scope::Selected))
    } else if c == 'p' {
        Some(Command::PurgeRc)
    } else if c == 'c' {
        Some(Command::ReviewConffiles)
    } else if c == 'z' {
        Some(Command::Zoom)
    } else {
        None
    }
}

pub fn bound_to(code: KeyCode, modifiers: KeyModifiers) -> (r: Option<Command>)
    ensures
        r == binding(code, modifiers),
{
    match code {
        KeyCode::Up => Some(Command::Up),
        KeyCode::Down => Some(Command::Down),
        KeyCode::Enter => Some(Command::ViewTask),
        KeyCode::Esc => Some(Command::Quit),
        KeyCode::Char(c) => match c {
            '/' => Some(Command::Search),
            'S' => Some(Command::SecurityUpgrade(Scope::All)),
            'R' => Some(Command::Update(Scope::All)),
            'U' => Some(Command::Upgrade(Scope::All)),
            'F' => Some(Command::FullUpgrade(Scope::All)),
            'A' => Some(Command::AutoRemove(Scope::All)),
            'b' => Some(Command::Reboot),
            't' => Some(Command::ViewTask),
            'q' => Some(Command::Quit),
            'c' if modifiers.is_control() => Some(Command::Quit),
            _ if !modifiers.is_none() => None,
            'k' => Some(Command::Up),
            'j' => Some(Command::Down),
            's' => Some(Command::SecurityUpgrade(Scope::Selected)),
            'r' => Some(Command::Update(Scope::Selected)),
            'u' => Some(Command::Upgrade(Scope::Selected)),
            'f' => Some(Command::FullUpgrade(Scope::Selected)),
            'a' => Some(Command::AutoRemove(Scope::Selected)),
            'p' => Some(Command::PurgeRc),
            'c' => Some(Command::ReviewConffiles),
            'z' => Some(Command::Zoom),
            _ => None,
        },
        _ => None,
    }
}

/// What a key asks for in the conffile review.
#[derive(Debug, Clone, Copy, PartialEq, Eq, Structural)]
pub enum ReviewCommand {
    Close,
    Previous,
    Next,
    PageUp,
    PageDown,
    Top,
    MarkDiscard,
    MarkApply,
    Unmark,
    Execute,
}

/// The command that a key is bound to in the conffile review.
pub open spec fn review_binding(code: KeyCode, modifiers: KeyModifiers) -> Option<ReviewCommand> {
    match code {
        KeyCode::Esc => Some(ReviewCommand::Close),
        KeyCode::Up => Some(ReviewCommand::Previous),
        KeyCode::Down => Some(ReviewCommand::Next),
        KeyCode::PageUp => Some(ReviewCommand::PageUp),
        KeyCode::PageDown => Some(ReviewCommand::PageDown),
        KeyCode::Home => Some(ReviewCommand::Top),
        KeyCode::Enter => Some(ReviewCommand::Execute),
        KeyCode::Char(c) => if c == 'q' || (c == 'c' && modifiers.just_control()) {
            Some(ReviewCommand::Close)
        } else if c == ' ' {
            Some(ReviewCommand::Unmark)
        } else if !modifiers.plain() {
            None
        } else if c == 'k' {
            Some(ReviewCommand::Previous)
        } else if c == 'j' {
            Some(ReviewCommand::Next)
        } else if c == 'g' {
            Some(ReviewCommand::Top)
        } else if c == 'd' {
            Some(ReviewCommand::MarkDiscard)
        } else if c == 'a' {
            Some(ReviewCommand::MarkApply)
        } else if c == 'u' {
            Some(ReviewCommand::Unmark)
        } else {
            None
        },
        _ => None,
    }
}

pub fn bound_in_review(code: KeyCode, modifiers: KeyModifiers) -> (r: Option<ReviewCommand>)
    ensures
        r == review_binding(code, modifiers),
{
    match code {
        KeyCode::Esc => Some(ReviewCommand::Close),
        KeyCode::Up => Some(ReviewCommand::Previous),
        KeyCode::Down => Some(ReviewCommand::Next),
        KeyCode::PageUp => Some(ReviewCommand::PageUp),
        KeyCode::PageDown => Some(ReviewCommand::PageDown),
        KeyCode::Home => Some(ReviewCommand::Top),
        KeyCode::Enter => Some(ReviewCommand::Execute),
        KeyCode::Char(c) => match c {
            'q' => Some(ReviewCommand::Close),
            'c' if modifiers.is_control() => Some(ReviewCommand::Close),
            ' ' => Some(ReviewCommand::Unmark),
            _ if !modifiers.is_none() => None,
            'k' => Some(ReviewCommand::Previous),
            'j' => Some(ReviewCommand::Next),
            'g' => Some(ReviewCommand::Top),
            'd' => Some(ReviewCommand::MarkDiscard),
            'a' => Some(ReviewCommand::MarkApply),
            'u' => Some(ReviewCommand::Unmark),
            _ => None,
        },
        _ => None,
    }
}

// ── Laws ─────────────────────────────────────────────────────────────────────

/// A key is plain if nothing is held down with it, and control alone counts as
/// control.
pub proof fn what_modifiers_mean(m: KeyModifiers)
    ensures
        m.plain() <==> m == (KeyModifiers {
            shift: false,
            control: false,
            alt: false,
            logo: false,
            hyper: false,
            meta: false,
        }),
        m.just_control() <==> m == (KeyModifiers {
            shift: false,
            control: true,
            alt: false,
            logo: false,
            hyper: false,
            meta: false,
        }),
{
}

} // verus!
