//! The room-picker view model: a menu page, a join page that accepts a hex
//! room token, and a chat page with an input line and a message list. The
//! widget tree that renders it lives outside the library.
use vstd::prelude::*;

verus! {

use crate::ident::TopicId;
use crate::text::{trim_string, trimmed, views_of_strings};
use crate::ticket::{hex_decode_token, is_hex_seq, unhex};
use vstd::string::{StrSliceExecFns, StringExecFns};

/// The state of the join page: the token the user typed so far.
#[derive(Debug)]
pub struct Join {
    pub token: String,
}

impl Default for Join {
    /// An empty token.
    fn default() -> (r: Join)
        ensures
            r.token@ == Seq::<char>::empty(),
    {
        Join { token: String::new() }
    }
}

/// Which page is shown.
#[derive(Clone, Copy, Debug, PartialEq, Eq, Structural)]
pub enum Page {
    Menu,
    JoinRoom,
    ChatRoom,
}

/// What the user did in the room picker.
#[derive(Debug)]
pub enum Message {
    GoToJoinRoom,
    GoToMenu,
    TokenChanged(String),
    CreateRoom,
    JoinRoom,
    GoToChatRoom,
    ChatInputChanged(String),
    SendMessage,
}

/// The room-picker state.
#[derive(Debug)]
pub struct App {
    page: Page,
    join: Join,
    pub topic: Option<TopicId>,
    pub chat_input: String,
    pub messages: Vec<String>,
}

/// The mathematical value of an [`App`].
pub ghost struct AppView {
    pub page: Page,
    pub token: Seq<char>,
    pub topic: Option<Seq<u8>>,
    pub chat_input: Seq<char>,
    pub messages: Seq<Seq<char>>,
}

impl View for App {
    type V = AppView;

    closed spec fn view(&self) -> AppView {
        AppView {
            page: self.page,
            token: self.join.token@,
            topic: match self.topic {
                Some(t) => Some(t@),
                None => None,
            },
            chat_input: self.chat_input@,
            messages: views_of_strings(self.messages@),
        }
    }
}

impl Default for App {
    /// The menu page, with no room and everything empty.
    fn default() -> (r: App)
        ensures
            r@.page == Page::Menu,
            r@.token == Seq::<char>::empty(),
            r@.topic is None,
            r@.chat_input == Seq::<char>::empty(),
            r@.messages == Seq::<Seq<char>>::empty(),
    {
        let r = App {
            page: Page::Menu,
            join: Join::default(),
            topic: None,
            chat_input: String::new(),
            messages: Vec::new(),
        };
        proof {
            assert(r@.messages =~= Seq::<Seq<char>>::empty());
        }
        r
    }
}

impl App {
    /// The page currently shown.
    pub fn page(&self) -> (r: Page)
        ensures
            r == self@.page,
    {
        self.page
    }

    /// The token typed on the join page.
    pub fn token(&self) -> (r: &String)
        ensures
            r@ == self@.token,
    {
        &self.join.token
    }

    /// Applies one user action. Creating a room draws a fresh random topic
    /// and enters the chat page with an empty message list; joining accepts
    /// the typed token only when it is the hex spelling of a full-width
    /// topic; sending appends the trimmed input when it is non-blank.
    pub fn update(&mut self, message: Message)
        ensures
            (message matches Message::GoToJoinRoom ==> final(self)@ == (AppView {
                page: Page::JoinRoom,
                ..old(self)@
            })),
            (message matches Message::GoToMenu ==> final(self)@ == (AppView {
                page: Page::Menu,
                topic: None,
                ..old(self)@
            })),
            (message matches Message::TokenChanged(token) ==> final(self)@ == (AppView {
                token: token@,
                ..old(self)@
            })),
            (message matches Message::CreateRoom ==> {
                &&& final(self)@.topic is Some
                &&& (final(self)@.topic->0).len() == crate::ID_LEN
                &&& final(self)@ == (AppView {
                    page: Page::ChatRoom,
                    topic: final(self)@.topic,
                    messages: Seq::<Seq<char>>::empty(),
                    ..old(self)@
                })
            }),
            (message matches Message::JoinRoom ==> {
                if is_hex_seq(old(self)@.token) && unhex(old(self)@.token).len()
                    == crate::ID_LEN {
                    final(self)@ == (AppView {
                        page: Page::ChatRoom,
                        topic: Some(unhex(old(self)@.token)),
                        ..old(self)@
                    })
                } else {
                    final(self)@ == old(self)@
                }
            }),
            (message matches Message::GoToChatRoom ==> final(self)@ == (AppView {
                page: Page::ChatRoom,
                ..old(self)@
            })),
            (message matches Message::ChatInputChanged(input) ==> final(self)@ == (AppView {
                chat_input: input@,
                ..old(self)@
            })),
            (message matches Message::SendMessage ==> {
                if trimmed(old(self)@.chat_input).len() > 0 {
                    final(self)@ == (AppView {
                        chat_input: Seq::<char>::empty(),
                        messages: old(self)@.messages.push(trimmed(old(self)@.chat_input)),
                        ..old(self)@
                    })
                } else {
                    final(self)@ == old(self)@
                }
            }),
    {
        match message {
            Message::GoToJoinRoom => {
                self.page = Page::JoinRoom;
            },
            Message::GoToMenu => {
                self.page = Page::Menu;
                self.topic = None;
            },
            Message::TokenChanged(token) => {
                self.join.token = token;
            },
            Message::CreateRoom => {
                self.topic = Some(TopicId::random());
                self.messages = Vec::new();
                self.page = Page::ChatRoom;
                proof {
                    assert(views_of_strings(self.messages@) =~= Seq::<Seq<char>>::empty());
                }
            },
            Message::JoinRoom => {
                match hex_decode_token(self.join.token.as_str()) {
                    Some(bytes) => {
                        match TopicId::from_bytes(bytes) {
                            Some(topic) => {
                                self.topic = Some(topic);
                                self.page = Page::ChatRoom;
                            },
                            None => {},
                        }
                    },
                    None => {},
                }
            },
            Message::GoToChatRoom => {
                self.page = Page::ChatRoom;
            },
            Message::ChatInputChanged(input) => {
                self.chat_input = input;
            },
            Message::SendMessage => {
                let t = trim_string(&self.chat_input);
                if !t.as_str().is_empty() {
                    let ghost prior = views_of_strings(self.messages@);
                    let ghost tv = t@;
                    self.messages.push(t);
                    self.chat_input = String::new();
                    proof {
                        assert(views_of_strings(self.messages@) =~= prior.push(tv));
                    }
                }
            },
        }
    }
}

} // verus!
