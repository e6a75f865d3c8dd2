//! The key events the state machine consumes, and the control legend shown
//! at the bottom of the screen.

use vstd::prelude::*;
use crate::text::chars_to_string;

verus! {

/// A key event, as the state machine sees it. The owner of the terminal
/// translates device events into these.
#[derive(Clone, Copy, PartialEq, Eq, Structural, Debug)]
pub enum Key {
    Char(char),
    Enter,
    Tab,
    Up,
    Down,
    Left,
    Right,
    Backspace,
    Esc,
}

/// One entry of the control legend: the key and what it does.
pub struct Control {
    pub key: Key,
    pub description: String,
}

/// The label shown for a printable key: the character itself, with the space
/// bar written out.
pub fn key_to_char(key: Key) -> (r: String)
    requires
        key is Char,
    ensures
        r@ == (if key->Char_0 == ' ' {
            seq!['S', 'P', 'A', 'C', 'E']
        } else {
            seq![key->Char_0]
        }),
{
    match key {
        Key::Char(c) => {
            let mut v: Vec<char> = Vec::new();
            if c == ' ' {
                v.push('S');
                v.push('P');
                v.push('A');
                v.push('C');
                v.push('E');
                assert(v@ =~= seq!['S', 'P', 'A', 'C', 'E']);
            } else {
                v.push(c);
                assert(v@ =~= seq![c]);
            }
            chars_to_string(&v)
        },
        _ => {
            proof {
                assert(false);
            }
            chars_to_string(&Vec::new())
        },
    }
}

fn control(key: Key, description: &str) -> (r: Control)
    ensures
        r.key == key,
        r.description@ == description@,
{
    Control { key, description: description.to_owned() }
}

/// The control legend of the idle list view, in display order.
pub fn get_controls() -> (r: Vec<Control>)
    ensures
        r@.len() == 6,
        r@[0].key == Key::Char('n') && r@[0].description@ == "new"@,
        r@[1].key == Key::Char('e') && r@[1].description@ == "edit"@,
        r@[2].key == Key::Char('d') && r@[2].description@ == "delete"@,
        r@[3].key == Key::Char('c') && r@[3].description@ == "copy"@,
        r@[4].key == Key::Char(' ') && r@[4].description@ == "end"@,
        r@[5].key == Key::Char('q') && r@[5].description@ == "quit"@,
{
    let mut r: Vec<Control> = Vec::new();
    r.push(control(Key::Char('n'), "new"));
    r.push(control(Key::Char('e'), "edit"));
    r.push(control(Key::Char('d'), "delete"));
    r.push(control(Key::Char('c'), "copy"));
    r.push(control(Key::Char(' '), "end"));
    r.push(control(Key::Char('q'), "quit"));
    r
}

} // verus!
