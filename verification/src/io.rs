//! The render surface the tracker draws on: a queue of draw commands with a
//! pair of color stacks. The caller that owns the terminal takes the queued
//! commands from `render` and executes them; nothing here touches a device.

use vstd::prelude::*;

verus! {

/// Which of the two terminal colors a command addresses.
#[derive(Clone, Copy, PartialEq, Eq, Structural, Debug)]
pub enum ColorType {
    Foreground,
    Background,
}

/// A position or extent on the terminal grid.
#[derive(Clone, Copy, PartialEq, Eq, Structural, Debug)]
pub struct Vector2 {
    pub x: u16,
    pub y: u16,
}

impl Vector2 {
    pub fn new(x: u16, y: u16) -> (r: Self)
        ensures
            r.x == x && r.y == y,
    {
        Vector2 { x, y }
    }
}

/// One queued drawing step: move the cursor, print text, or switch a color.
/// A color of `None` restores the terminal default.
#[derive(Clone, Debug)]
pub enum DrawCmd {
    MoveTo(Vector2),
    Print(String),
    SetColor(ColorType, Option<u8>),
}

/// The draw-command queue with its color stacks. Every color pushed must be
/// popped again before the stacks are checked at the end of a frame.
pub struct Out {
    commands: Vec<DrawCmd>,
    foreground_color_stack: Vec<u8>,
    background_color_stack: Vec<u8>,
}

impl Out {
    /// The commands queued so far, oldest first.
    pub closed spec fn commands_view(&self) -> Seq<DrawCmd> {
        self.commands@
    }

    pub closed spec fn foreground_stack(&self) -> Seq<u8> {
        self.foreground_color_stack@
    }

    pub closed spec fn background_stack(&self) -> Seq<u8> {
        self.background_color_stack@
    }

    pub fn new() -> (r: Out)
        ensures
            r.commands_view().len() == 0,
            r.foreground_stack().len() == 0,
            r.background_stack().len() == 0,
    {
        Out {
            commands: Vec::new(),
            foreground_color_stack: Vec::new(),
            background_color_stack: Vec::new(),
        }
    }

    /// Hand the queued commands over for execution and start a new frame.
    pub fn render(&mut self) -> (r: Vec<DrawCmd>)
        ensures
            r@ == old(self).commands_view(),
            final(self).commands_view().len() == 0,
            final(self).foreground_stack() == old(self).foreground_stack(),
            final(self).background_stack() == old(self).background_stack(),
    {
        let mut drained: Vec<DrawCmd> = Vec::new();
        core::mem::swap(&mut drained, &mut self.commands);
        drained
    }

    /// Push a color and switch to it.
    pub fn push_color(&mut self, color_type: ColorType, ansi_value: u8)
        ensures
            final(self).commands_view() == old(self).commands_view() + seq![
                DrawCmd::SetColor(color_type, Some(ansi_value)),
            ],
            match color_type {
                ColorType::Foreground => final(self).foreground_stack() == old(
                    self,
                ).foreground_stack().push(ansi_value) && final(self).background_stack() == old(
                    self,
                ).background_stack(),
                ColorType::Background => final(self).background_stack() == old(
                    self,
                ).background_stack().push(ansi_value) && final(self).foreground_stack() == old(
                    self,
                ).foreground_stack(),
            },
    {
        match color_type {
            ColorType::Foreground => {
                self.foreground_color_stack.push(ansi_value);
            },
            ColorType::Background => {
                self.background_color_stack.push(ansi_value);
            },
        }
        self.commands.push(DrawCmd::SetColor(color_type, Some(ansi_value)));
        proof {
            assert(self.commands_view() =~= old(self).commands_view() + seq![
                DrawCmd::SetColor(color_type, Some(ansi_value)),
            ]);
        }
    }

    /// Pop the current color and switch back to the one below it, or to the
    /// terminal default when the stack empties.
    pub fn pop_color(&mut self, color_type: ColorType)
        requires
            match color_type {
                ColorType::Foreground => old(self).foreground_stack().len() > 0,
                ColorType::Background => old(self).background_stack().len() > 0,
            },
        ensures
            match color_type {
                ColorType::Foreground => {
                    &&& final(self).foreground_stack() == old(self).foreground_stack().drop_last()
                    &&& final(self).background_stack() == old(self).background_stack()
                    &&& final(self).commands_view() == old(self).commands_view() + seq![
                        DrawCmd::SetColor(
                            ColorType::Foreground,
                            if old(self).foreground_stack().len() > 1 {
                                Some(
                                    old(self).foreground_stack()[old(
                                        self,
                                    ).foreground_stack().len() - 2],
                                )
                            } else {
                                None
                            },
                        ),
                    ]
                },
                ColorType::Background => {
                    &&& final(self).background_stack() == old(self).background_stack().drop_last()
                    &&& final(self).foreground_stack() == old(self).foreground_stack()
                    &&& final(self).commands_view() == old(self).commands_view() + seq![
                        DrawCmd::SetColor(
                            ColorType::Background,
                            if old(self).background_stack().len() > 1 {
                                Some(
                                    old(self).background_stack()[old(
                                        self,
                                    ).background_stack().len() - 2],
                                )
                            } else {
                                None
                            },
                        ),
                    ]
                },
            },
    {
        let color: Option<u8> = match color_type {
            ColorType::Foreground => {
                self.foreground_color_stack.pop();
                if self.foreground_color_stack.len() > 0 {
                    Some(self.foreground_color_stack[self.foreground_color_stack.len() - 1])
                } else {
                    None
                }
            },
            ColorType::Background => {
                self.background_color_stack.pop();
                if self.background_color_stack.len() > 0 {
                    Some(self.background_color_stack[self.background_color_stack.len() - 1])
                } else {
                    None
                }
            },
        };
        self.commands.push(DrawCmd::SetColor(color_type, color));
        proof {
            assert(self.commands_view() =~= old(self).commands_view() + seq![
                DrawCmd::SetColor(color_type, color),
            ]);
        }
    }

    /// A frame may end only with both color stacks empty: every push must
    /// have been popped.
    pub fn check_color_stacks(&self)
        requires
            self.foreground_stack().len() == 0,
            self.background_stack().len() == 0,
    {
    }

    /// Queue a cursor move.
    pub fn go_to_position(&mut self, position: &Vector2)
        ensures
            final(self).commands_view() == old(self).commands_view() + seq![
                DrawCmd::MoveTo(*position),
            ],
            final(self).foreground_stack() == old(self).foreground_stack(),
            final(self).background_stack() == old(self).background_stack(),
    {
        self.commands.push(DrawCmd::MoveTo(*position));
        proof {
            assert(self.commands_view() =~= old(self).commands_view() + seq![
                DrawCmd::MoveTo(*position),
            ]);
        }
    }

    /// Queue text at the current cursor position.
    pub fn draw(&mut self, sprite: &str)
        ensures
            final(self).commands_view().len() == old(self).commands_view().len() + 1,
            final(self).commands_view() == old(self).commands_view().push(
                final(self).commands_view().last(),
            ),
            final(self).commands_view().last() matches DrawCmd::Print(s) && s@ == sprite@,
            final(self).foreground_stack() == old(self).foreground_stack(),
            final(self).background_stack() == old(self).background_stack(),
    {
        self.commands.push(DrawCmd::Print(sprite.to_owned()));
        proof {
            assert(self.commands_view() =~= old(self).commands_view().push(
                self.commands_view().last(),
            ));
        }
    }

    /// Queue a cursor move followed by text there.
    pub fn draw_at(&mut self, sprite: &str, position: &Vector2)
        ensures
            final(self).commands_view().len() == old(self).commands_view().len() + 2,
            final(self).commands_view()[final(self).commands_view().len() - 2] == DrawCmd::MoveTo(
                *position,
            ),
            final(self).commands_view().last() matches DrawCmd::Print(s) && s@ == sprite@,
            final(self).commands_view().subrange(0, old(self).commands_view().len() as int) == old(
                self,
            ).commands_view(),
            final(self).foreground_stack() == old(self).foreground_stack(),
            final(self).background_stack() == old(self).background_stack(),
    {
        self.go_to_position(position);
        self.draw(sprite);
        proof {
            assert(self.commands_view().subrange(0, old(self).commands_view().len() as int)
                =~= old(self).commands_view());
        }
    }
}

} // verus!
