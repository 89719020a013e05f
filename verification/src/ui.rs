//! The plain messaging view model: an input line, a status line, and the
//! list of shown messages. The widget tree that renders it lives outside
//! the library.
use vstd::prelude::*;

verus! {

use crate::text::{trim_string, trimmed, views_of_strings};
use vstd::string::{StrSliceExecFns, StringExecFns};

/// The state behind the plain messaging window.
#[derive(Debug)]
pub struct GUI {
    pub input_value: String,
    pub display_message: String,
    pub messages: Vec<String>,
}

/// The mathematical value of a [`GUI`].
pub ghost struct GuiView {
    pub input_value: Seq<char>,
    pub display_message: Seq<char>,
    pub messages: Seq<Seq<char>>,
}

impl View for GUI {
    type V = GuiView;

    open spec fn view(&self) -> GuiView {
        GuiView {
            input_value: self.input_value@,
            display_message: self.display_message@,
            messages: views_of_strings(self.messages@),
        }
    }
}

/// What the user did in the messaging window.
#[derive(Debug)]
pub enum Message {
    InputChanged(String),
    SendMessage,
    ClearMessage,
}

impl Default for GUI {
    /// Everything starts empty.
    fn default() -> (r: GUI)
        ensures
            r@.input_value == Seq::<char>::empty(),
            r@.display_message == Seq::<char>::empty(),
            r@.messages == Seq::<Seq<char>>::empty(),
    {
        let r = GUI {
            input_value: String::new(),
            display_message: String::new(),
            messages: Vec::new(),
        };
        proof {
            assert(r@.messages =~= Seq::<Seq<char>>::empty());
        }
        r
    }
}

impl GUI {
    /// Applies one user action. Typing replaces the input line; sending a
    /// non-blank input appends it to the shown messages under a `You:`
    /// prefix and sets the status line, leaving the input for the caller to
    /// clear; clearing empties everything.
    pub fn update(&mut self, message: Message)
        ensures
            (message matches Message::InputChanged(value) ==> final(self)@ == (GuiView {
                input_value: value@,
                ..old(self)@
            })),
            (message matches Message::SendMessage ==> {
                if trimmed(old(self)@.input_value).len() > 0 {
                    final(self)@ == (GuiView {
                        display_message: "Sent: "@ + old(self)@.input_value,
                        messages: old(self)@.messages.push(
                            "You: "@ + old(self)@.input_value,
                        ),
                        ..old(self)@
                    })
                } else {
                    final(self)@ == old(self)@
                }
            }),
            (message matches Message::ClearMessage ==> final(self)@ == (GuiView {
                input_value: Seq::<char>::empty(),
                display_message: Seq::<char>::empty(),
                messages: Seq::<Seq<char>>::empty(),
            })),
    {
        match message {
            Message::InputChanged(value) => {
                self.input_value = value;
            },
            Message::SendMessage => {
                let t = trim_string(&self.input_value);
                if !t.as_str().is_empty() {
                    let ghost prior = views_of_strings(self.messages@);
                    let mut shown = String::from_str("You: ");
                    shown.append(self.input_value.as_str());
                    self.messages.push(shown);
                    let mut status = String::from_str("Sent: ");
                    status.append(self.input_value.as_str());
                    self.display_message = status;
                    proof {
                        assert(views_of_strings(self.messages@) =~= prior.push(
                            "You: "@ + self.input_value@,
                        ));
                    }
                }
            },
            Message::ClearMessage => {
                self.display_message = String::new();
                self.messages = Vec::new();
                self.input_value = String::new();
                proof {
                    assert(views_of_strings(self.messages@) =~= Seq::<Seq<char>>::empty());
                }
            },
        }
    }

    /// Appends a message delivered from a peer to the shown list.
    pub fn add_received_message(&mut self, message: String)
        ensures
            final(self)@ == (GuiView {
                messages: old(self)@.messages.push(message@),
                ..old(self)@
            }),
    {
        let ghost prior = views_of_strings(self.messages@);
        let ghost mv = message@;
        self.messages.push(message);
        proof {
            assert(views_of_strings(self.messages@) =~= prior.push(mv));
        }
    }

    /// Empties the input line.
    pub fn clear_input(&mut self)
        ensures
            final(self)@ == (GuiView { input_value: Seq::<char>::empty(), ..old(self)@ }),
    {
        self.input_value = String::new();
    }
}

} // verus!
