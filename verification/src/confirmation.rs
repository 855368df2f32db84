//! The modal confirmation dialog: reviews a finalized selection list
//! and yields confirm or abort. A single-state modal — it is finished
//! as soon as it is constructed; the only mutation is scrolling, one
//! input event per invocation.
//!
//! Key decoding and drawing belong to the terminal layer around the
//! library; it hands key presses in as plain values and renders the
//! visible labels computed here.

use vstd::prelude::*;

use crate::strutil::dec_str;
use crate::strutil::usize_to_string;

verus! {

/// A key press, reduced to what the dialog distinguishes: a character
/// key, the escape key, or anything else.
#[derive(Debug, Clone, Copy, PartialEq, Eq, Structural)]
pub enum KeyInput {
    Char(char),
    Esc,
    Other,
}

/// The outcome a dialog hands upward after an input: nothing, a
/// confirmed selection, or an aborted confirmation.
#[derive(Debug, Clone, Copy, PartialEq, Eq, Structural)]
pub enum FloatEvent {
    NoEvent,
    ConfirmSelection,
    AbortConfirmation,
}

/// One documented key binding: an action and the keys bound to it.
#[derive(Debug)]
pub struct Shortcut {
    pub action: String,
    pub keys: Vec<String>,
}

impl DeepView for Shortcut {
    type V = (Seq<char>, Seq<Seq<char>>);

    open spec fn deep_view(&self) -> (Seq<char>, Seq<Seq<char>>) {
        (self.action@, self.keys.deep_view())
    }
}

impl Shortcut {
    /// Builds a binding from an action and its keys.
    pub fn new(action: &str, keys: Vec<String>) -> (s: Shortcut)
        ensures
            s.deep_view() == (action@, keys.deep_view()),
    {
        Shortcut { action: action.to_owned(), keys }
    }
}

/// The display label of selection `i` (zero-based): its one-based
/// number, a dot and a space, then its raw name.
pub open spec fn spec_label(i: int, name: Seq<char>) -> Seq<char> {
    dec_str((i + 1) as nat) + ". "@ + name
}

/// The 1-indexed display labels of a selection list, in order.
pub open spec fn spec_labels(names: Seq<Seq<char>>) -> Seq<Seq<char>> {
    Seq::new(names.len(), |i: int| spec_label(i, names[i]))
}

/// The dialog's transition for one input on a label list of length
/// `len`: the new scroll offset and the emitted outcome. `y`/`Y`
/// confirm and `n`/`N`/escape abort, at any offset; `j` and `k`
/// scroll down and up, clamped to the list; anything else changes
/// nothing.
pub open spec fn spec_step(offset: int, len: int, key: KeyInput) -> (int, FloatEvent) {
    match key {
        KeyInput::Char(c) => if c == 'y' || c == 'Y' {
            (offset, FloatEvent::ConfirmSelection)
        } else if c == 'n' || c == 'N' {
            (offset, FloatEvent::AbortConfirmation)
        } else if c == 'j' {
            (if offset < len - 1 { offset + 1 } else { offset }, FloatEvent::NoEvent)
        } else if c == 'k' {
            (if offset > 0 { offset - 1 } else { offset }, FloatEvent::NoEvent)
        } else {
            (offset, FloatEvent::NoEvent)
        },
        KeyInput::Esc => (offset, FloatEvent::AbortConfirmation),
        KeyInput::Other => (offset, FloatEvent::NoEvent),
    }
}

/// The confirmation dialog's state: the immutable 1-indexed labels of
/// the finalized selections, and the mutable scroll offset into them.
pub struct ConfirmPrompt {
    pub names: Vec<String>,
    pub scroll: usize,
}

impl ConfirmPrompt {
    /// The current scroll offset.
    pub open spec fn offset(self) -> int {
        self.scroll as int
    }

    /// The dialog's invariant: the scroll offset stays within the
    /// label list, and at zero for an empty list.
    pub open spec fn inv(self) -> bool {
        if self.names@.len() == 0 {
            self.offset() == 0
        } else {
            0 <= self.offset() < self.names@.len()
        }
    }

    /// Builds the dialog from the raw selection names: the labels are
    /// the names numbered from one, in order, and the scroll offset
    /// starts at zero.
    pub fn new(names: &Vec<String>) -> (p: ConfirmPrompt)
        ensures
            p.names.deep_view() == spec_labels(names.deep_view()),
            p.offset() == 0,
            p.inv(),
    {
        let ghost ndv = names.deep_view();
        let n = names.len();
        let mut labels: Vec<String> = Vec::new();
        let mut i: usize = 0;
        while i < n
            invariant
                i <= n,
                n == names.len(),
                ndv == names.deep_view(),
                labels.deep_view().len() == i as int,
                forall|k: int| 0 <= k < i ==> labels.deep_view()[k] == spec_labels(ndv)[k],
            decreases n - i,
        {
            let mut label = usize_to_string(i + 1);
            label.append(". ");
            label.append(names[i].as_str());
            proof {
                reveal_strlit(". ");
                assert(label@ == spec_label(i as int, ndv[i as int]));
            }
            labels.push(label);
            i = i + 1;
        }
        proof {
            assert(labels.deep_view() =~= spec_labels(ndv));
        }
        ConfirmPrompt { names: labels, scroll: 0 }
    }

    /// Scrolls one step down, a no-op at the bottom.
    pub fn scroll_down(&mut self)
        requires
            old(self).inv(),
            old(self).names@.len() > 0,
        ensures
            final(self).names == old(self).names,
            final(self).offset() == if old(self).offset() < old(self).names@.len() - 1 {
                old(self).offset() + 1
            } else {
                old(self).offset()
            },
            final(self).inv(),
    {
        if self.scroll < self.names.len() - 1 {
            self.scroll = self.scroll + 1;
        }
    }

    /// Scrolls one step up, a no-op at the top.
    pub fn scroll_up(&mut self)
        requires
            old(self).inv(),
        ensures
            final(self).names == old(self).names,
            final(self).offset() == if old(self).offset() > 0 {
                old(self).offset() - 1
            } else {
                old(self).offset()
            },
            final(self).inv(),
    {
        if self.scroll > 0 {
            self.scroll = self.scroll - 1;
        }
    }

    /// Processes one key press: `y`/`Y` confirm, `n`/`N` and escape
    /// abort, `j`/`k` scroll, anything else changes nothing.
    pub fn handle_key_event(&mut self, key: KeyInput) -> (ev: FloatEvent)
        requires
            old(self).inv(),
            key == KeyInput::Char('j') ==> old(self).names@.len() > 0,
        ensures
            final(self).names == old(self).names,
            (final(self).offset(), ev) == spec_step(
                old(self).offset(),
                old(self).names@.len() as int,
                key,
            ),
            final(self).inv(),
    {
        match key {
            KeyInput::Char(c) => {
                if c == 'y' || c == 'Y' {
                    return FloatEvent::ConfirmSelection;
                }
                if c == 'n' || c == 'N' {
                    return FloatEvent::AbortConfirmation;
                }
                if c == 'j' {
                    self.scroll_down();
                } else if c == 'k' {
                    self.scroll_up();
                }
                FloatEvent::NoEvent
            },
            KeyInput::Esc => FloatEvent::AbortConfirmation,
            KeyInput::Other => FloatEvent::NoEvent,
        }
    }

    /// The dialog is complete as soon as it is constructed; there is
    /// no multi-step flow beyond scrolling.
    pub fn is_finished(&self) -> (r: bool)
        ensures
            r == true,
    {
        true
    }

    /// The visible body of the dialog: the tail of the label list
    /// from the current scroll offset through the end, recomputed
    /// from the full list at each draw.
    pub fn visible_labels(&self) -> (r: Vec<String>)
        requires
            self.inv(),
        ensures
            r.deep_view() == self.names.deep_view().skip(self.offset()),
    {
        let n = self.names.len();
        let mut r: Vec<String> = Vec::new();
        let mut k = self.scroll;
        proof {
            if self.names@.len() == 0 {
                assert(self.names.deep_view().skip(self.offset()) =~= Seq::<Seq<char>>::empty());
            }
        }
        while k < n
            invariant
                self.scroll <= k <= n || (self.names@.len() == 0 && k == 0),
                n == self.names.len(),
                r.deep_view() =~= self.names.deep_view().subrange(self.offset(), k as int)
                    || (self.names@.len() == 0 && r.deep_view().len() == 0),
            decreases n - k,
        {
            let ghost dv_old = r.deep_view();
            r.push(self.names[k].clone());
            proof {
                assert(r.deep_view() =~= dv_old.push(self.names.deep_view()[k as int]));
                assert(r.deep_view() =~= self.names.deep_view().subrange(
                    self.offset(),
                    k as int + 1,
                ));
            }
            k = k + 1;
        }
        proof {
            if self.names@.len() > 0 {
                assert(self.names.deep_view().subrange(self.offset(), n as int)
                    =~= self.names.deep_view().skip(self.offset()));
            } else {
                assert(r.deep_view() =~= self.names.deep_view().skip(self.offset()));
            }
        }
        r
    }

    /// The dialog's documented key bindings for help overlays. The
    /// list also documents the global quit binding, which the dialog
    /// itself does not handle.
    pub fn get_shortcut_list(&self) -> (r: (&'static str, Vec<Shortcut>))
        ensures
            r.0@ == "Confirmation prompt"@,
            r.1.deep_view() == spec_shortcuts(),
    {
        let mut list: Vec<Shortcut> = Vec::new();
        list.push(Shortcut::new("Continue", two_keys("Y", "y")));
        list.push(Shortcut::new("Abort", two_keys("N", "n")));
        list.push(Shortcut::new("Scroll down", one_key("j")));
        list.push(Shortcut::new("Scroll up", one_key("k")));
        list.push(Shortcut::new("Close linutil", two_keys("CTRL-c", "q")));
        proof {
            assert(list.deep_view() =~~= spec_shortcuts());
        }
        ("Confirmation prompt", list)
    }
}

/// The documented bindings of the confirmation dialog: `j` scrolls
/// down and `k` scrolls up, as the dialog itself handles them.
pub open spec fn spec_shortcuts() -> Seq<(Seq<char>, Seq<Seq<char>>)> {
    seq![
        ("Continue"@, seq!["Y"@, "y"@]),
        ("Abort"@, seq!["N"@, "n"@]),
        ("Scroll down"@, seq!["j"@]),
        ("Scroll up"@, seq!["k"@]),
        ("Close linutil"@, seq!["CTRL-c"@, "q"@]),
    ]
}

/// A one-element key list.
fn one_key(k: &str) -> (r: Vec<String>)
    ensures
        r.deep_view() =~= seq![k@],
{
    let mut v: Vec<String> = Vec::new();
    v.push(k.to_owned());
    v
}

/// A two-element key list.
fn two_keys(k1: &str, k2: &str) -> (r: Vec<String>)
    ensures
        r.deep_view() =~= seq![k1@, k2@],
{
    let mut v: Vec<String> = Vec::new();
    v.push(k1.to_owned());
    v.push(k2.to_owned());
    v
}

/// The scroll offset after a whole sequence of inputs, each applied
/// by `spec_step` in turn.
pub open spec fn offset_after(offset: int, len: int, keys: Seq<KeyInput>) -> int
    decreases keys.len(),
{
    if keys.len() == 0 {
        offset
    } else {
        offset_after(spec_step(offset, len, keys[0]).0, len, keys.drop_first())
    }
}

/// Under an arbitrary sequence of inputs, the scroll offset of a
/// dialog over a non-empty label list stays within the list.
pub proof fn lemma_offset_bounded(offset: int, len: int, keys: Seq<KeyInput>)
    requires
        len > 0,
        0 <= offset < len,
    ensures
        0 <= offset_after(offset, len, keys) < len,
    decreases keys.len(),
{
    if keys.len() > 0 {
        lemma_offset_bounded(spec_step(offset, len, keys[0]).0, len, keys.drop_first());
    }
}

} // verus!
