use vstd::prelude::*;
use crate::text::{string_pop, string_push};

verus! {

/// The channel a chat line is spoken on.
#[derive(Clone, Copy, Debug, PartialEq, Eq, Structural)]
pub enum ChatMode {
    Say,
    Radio,
    Emotion,
    LOOC,
    OOC,
}

/// The mode that follows `m` in the cycle Say, Radio, Emotion, LOOC, OOC, Say, ...
pub open spec fn successor(m: ChatMode) -> ChatMode {
    match m {
        ChatMode::Say => ChatMode::Radio,
        ChatMode::Radio => ChatMode::Emotion,
        ChatMode::Emotion => ChatMode::LOOC,
        ChatMode::LOOC => ChatMode::OOC,
        ChatMode::OOC => ChatMode::Say,
    }
}

impl Default for ChatMode {
    fn default() -> (r: ChatMode)
        ensures
            r == ChatMode::Say,
    {
        ChatMode::Say
    }
}

impl ChatMode {
    /// Returns the mode after this one. The mode itself is left as it is.
    pub fn next(&mut self) -> (r: ChatMode)
        ensures
            *final(self) == *old(self),
            r == successor(*old(self)),
    {
        match *self {
            ChatMode::Say => ChatMode::Radio,
            ChatMode::Radio => ChatMode::Emotion,
            ChatMode::Emotion => ChatMode::LOOC,
            ChatMode::LOOC => ChatMode::OOC,
            ChatMode::OOC => ChatMode::Say,
        }
    }
}


/// Whether the chat input line is open.
#[derive(Clone, Copy, Debug, Default, PartialEq, Eq, Structural)]
pub struct ChatOpened(pub bool);

/// The chat state after one frame in which T (open) and Escape (close) were read:
/// Escape closes the chat, otherwise T opens it.
pub open spec fn chat_open_after(opened: bool, t_pressed: bool, escape_pressed: bool) -> bool {
    !escape_pressed && (opened || t_pressed)
}

/// Opens the chat on T when it is closed, then closes it on Escape when it is open.
pub fn open_chat(chat_opened: &mut ChatOpened, t_pressed: bool, escape_pressed: bool)
    ensures
        final(chat_opened).0 == chat_open_after(old(chat_opened).0, t_pressed, escape_pressed),
{
    if t_pressed && !chat_opened.0 {
        chat_opened.0 = true;
    }
    if escape_pressed && chat_opened.0 {
        chat_opened.0 = false;
    }
}

/// Handles Tab in the chat: asks the mode for its successor and drops the answer,
/// so the mode in use stays the same.
pub fn change_chat_mode(chat_mode: &mut ChatMode, tab_pressed: bool)
    ensures
        *final(chat_mode) == *old(chat_mode),
{
    if tab_pressed {
        let _ = chat_mode.next();
    }
}

/// The text typed so far into the chat line.
#[derive(Clone, Debug, Default)]
pub struct MessageText(pub String);

/// A chat line ready to be sent.
#[derive(Clone, Debug)]
pub struct SendChatMsg {
    pub text: String,
    pub chat_mode: ChatMode,
}

/// The logical key of a keyboard event, as far as the chat line reads it.
#[derive(Clone, Debug)]
pub enum ChatKey {
    Character(String),
    Space,
    Enter,
    Backspace,
    Other,
}

/// One keyboard event: the key and whether it went down.
#[derive(Clone, Debug)]
pub struct ChatKeyEvent {
    pub pressed: bool,
    pub key: ChatKey,
}

/// The chat line after one keyboard event: the new open flag, the new text, and the
/// text sent by this event, if any.
pub open spec fn chat_key_step(opened: bool, text: Seq<char>, ev: ChatKeyEvent) -> (bool, Seq<char>, Option<Seq<char>>) {
    if !ev.pressed || !opened {
        (opened, text, None)
    } else {
        match ev.key {
            ChatKey::Character(c) => (opened, text + c@, None),
            ChatKey::Space => (opened, text.push(' '), None),
            ChatKey::Enter => (false, text, Some(text)),
            ChatKey::Backspace => (opened, if text.len() > 0 { text.drop_last() } else { text }, None),
            ChatKey::Other => (opened, text, None),
        }
    }
}

/// The chat line after a sequence of keyboard events, taken in order: the open flag, the
/// text, and the texts sent, in the order they were sent.
pub open spec fn chat_after_keys(opened: bool, text: Seq<char>, evs: Seq<ChatKeyEvent>) -> (bool, Seq<char>, Seq<Seq<char>>)
    decreases evs.len(),
{
    if evs.len() == 0 {
        (opened, text, Seq::empty())
    } else {
        let prev = chat_after_keys(opened, text, evs.drop_last());
        let step = chat_key_step(prev.0, prev.1, evs.last());
        (step.0, step.1, match step.2 {
            Some(t) => prev.2.push(t),
            None => prev.2,
        })
    }
}

/// Feeds this frame's keyboard events to the chat line. While the chat is open,
/// characters and spaces are typed, Backspace deletes the last character, and Enter
/// closes the chat and sends the text typed so far in the current mode. Events that are
/// not presses, and all events while the chat is closed, are ignored.
pub fn make_chat_message(
    chat_opened: &mut ChatOpened,
    chat_mode: ChatMode,
    keyboard: &Vec<ChatKeyEvent>,
    text: &mut MessageText,
) -> (sent: Vec<SendChatMsg>)
    ensures
        ({
            let run = chat_after_keys(old(chat_opened).0, old(text).0@, keyboard@);
            &&& final(chat_opened).0 == run.0
            &&& final(text).0@ == run.1
            &&& sent@.len() == run.2.len()
            &&& forall|i: int| 0 <= i < sent@.len() ==> #[trigger] sent@[i].text@ == run.2[i]
            &&& forall|i: int| 0 <= i < sent@.len() ==> #[trigger] sent@[i].chat_mode == chat_mode
        }),
{
    let mut sent: Vec<SendChatMsg> = Vec::new();
    let mut i: usize = 0;
    while i < keyboard.len()
        invariant
            0 <= i <= keyboard@.len(),
            ({
                let run = chat_after_keys(old(chat_opened).0, old(text).0@, keyboard@.take(i as int));
                &&& chat_opened.0 == run.0
                &&& text.0@ == run.1
                &&& sent@.len() == run.2.len()
                &&& forall|j: int| 0 <= j < sent@.len() ==> #[trigger] sent@[j].text@ == run.2[j]
                &&& forall|j: int| 0 <= j < sent@.len() ==> #[trigger] sent@[j].chat_mode == chat_mode
            }),
        decreases keyboard@.len() - i,
    {
        proof {
            assert(keyboard@.take(i + 1).drop_last() =~= keyboard@.take(i as int));
            assert(keyboard@.take(i + 1).last() == keyboard@[i as int]);
        }
        let event = &keyboard[i];
        if event.pressed && chat_opened.0 {
            match &event.key {
                ChatKey::Character(character) => {
                    text.0.append(character.as_str());
                },
                ChatKey::Space => {
                    string_push(&mut text.0, ' ');
                },
                ChatKey::Enter => {
                    chat_opened.0 = false;
                    sent.push(SendChatMsg { text: text.0.clone(), chat_mode });
                },
                ChatKey::Backspace => {
                    let _ = string_pop(&mut text.0);
                },
                ChatKey::Other => {},
            }
        }
        i = i + 1;
    }
    proof {
        assert(keyboard@.take(keyboard@.len() as int) =~= keyboard@);
    }
    sent
}

/// Law: while the chat is closed, keyboard events change nothing and send nothing.
pub proof fn lemma_closed_chat_ignores_keys(text: Seq<char>, evs: Seq<ChatKeyEvent>)
    ensures
        chat_after_keys(false, text, evs) == (false, text, Seq::<Seq<char>>::empty()),
    decreases evs.len(),
{
    if evs.len() > 0 {
        lemma_closed_chat_ignores_keys(text, evs.drop_last());
    }
}

/// Law: one batch of keyboard events sends at most one chat line, and after a line is
/// sent the chat is closed.
pub proof fn lemma_at_most_one_line_per_batch(opened: bool, text: Seq<char>, evs: Seq<ChatKeyEvent>)
    ensures
        chat_after_keys(opened, text, evs).2.len() <= 1,
        chat_after_keys(opened, text, evs).2.len() == 1 ==> !chat_after_keys(opened, text, evs).0,
    decreases evs.len(),
{
    if evs.len() > 0 {
        lemma_at_most_one_line_per_batch(opened, text, evs.drop_last());
    }
}

/// Law: the mode cycle has length five; stepping five times from any mode returns to it,
/// and no fewer steps do.
pub proof fn lemma_mode_cycle(m: ChatMode)
    ensures
        successor(successor(successor(successor(successor(m))))) == m,
        successor(m) != m,
        successor(successor(m)) != m,
        successor(successor(successor(m))) != m,
        successor(successor(successor(successor(m)))) != m,
{
}

/// Law: different modes have different successors.
pub proof fn lemma_successor_injective(a: ChatMode, b: ChatMode)
    ensures
        successor(a) == successor(b) ==> a == b,
{
}

/// Law: while the chat is open, a pressed Backspace takes the last character off a
/// non-empty text, whatever that character is, and leaves an empty text as it is; it
/// sends nothing and the chat stays open.
pub proof fn lemma_backspace_removes_last_char(text: Seq<char>)
    ensures
        text.len() > 0 ==> chat_key_step(true, text, ChatKeyEvent { pressed: true, key: ChatKey::Backspace })
            == (true, text.subrange(0, text.len() - 1), None::<Seq<char>>),
        text.len() == 0 ==> chat_key_step(true, text, ChatKeyEvent { pressed: true, key: ChatKey::Backspace })
            == (true, text, None::<Seq<char>>),
{
    assert(text.len() > 0 ==> text.drop_last() =~= text.subrange(0, text.len() - 1));
}

/// Law: while the chat is open, typing one character (a space, or a key that gives one
/// character) and then pressing Backspace gives the text back as it was, sends nothing
/// and leaves the chat open.
pub proof fn lemma_backspace_undoes_typing(text: Seq<char>, typed: ChatKey)
    requires
        typed is Space || (typed matches ChatKey::Character(s) && s@.len() == 1),
    ensures
        chat_after_keys(true, text, seq![
            ChatKeyEvent { pressed: true, key: typed },
            ChatKeyEvent { pressed: true, key: ChatKey::Backspace },
        ]) == (true, text, Seq::<Seq<char>>::empty()),
{
    let first = ChatKeyEvent { pressed: true, key: typed };
    let second = ChatKeyEvent { pressed: true, key: ChatKey::Backspace };
    let evs = seq![first, second];
    assert(evs.drop_last() =~= seq![first]);
    assert(seq![first].drop_last() =~= Seq::<ChatKeyEvent>::empty());
    let after_one = chat_key_step(true, text, first);
    assert(chat_after_keys(true, text, Seq::<ChatKeyEvent>::empty()) == (true, text, Seq::<Seq<char>>::empty()));
    assert(chat_after_keys(true, text, seq![first]) == (after_one.0, after_one.1, Seq::<Seq<char>>::empty()));
    assert(evs.last() == second);
    match typed {
        ChatKey::Space => {
            assert(after_one.1.drop_last() =~= text);
        },
        ChatKey::Character(s) => {
            assert(after_one.1 == text + s@);
            assert((text + s@).drop_last() =~= text);
        },
        _ => {},
    }
}

/// Law: T opens a closed chat, Escape closes the chat whatever else is held, and a frame
/// without Escape never closes an open chat; a closed chat stays closed without T.
pub proof fn lemma_open_chat_keys(opened: bool, t_pressed: bool, escape_pressed: bool)
    ensures
        escape_pressed ==> !chat_open_after(opened, t_pressed, escape_pressed),
        opened && !escape_pressed ==> chat_open_after(opened, t_pressed, escape_pressed),
        t_pressed && !escape_pressed ==> chat_open_after(opened, t_pressed, escape_pressed),
        !opened && !t_pressed ==> !chat_open_after(opened, t_pressed, escape_pressed),
{
}

/// Law: while the chat is open, typing a key's text and pressing Enter sends exactly the
/// text typed so far, that key's text at its end, and closes the chat; the text stays.
/// A key that is let go, rather than pressed, changes nothing.
pub proof fn lemma_enter_sends_typed_text(text: Seq<char>, typed: String, ev: ChatKeyEvent, opened: bool)
    ensures
        chat_after_keys(true, text, seq![
            ChatKeyEvent { pressed: true, key: ChatKey::Character(typed) },
            ChatKeyEvent { pressed: true, key: ChatKey::Enter },
        ]) == (false, text + typed@, seq![text + typed@]),
        !ev.pressed ==> chat_key_step(opened, text, ev) == (opened, text, None::<Seq<char>>),
{
    let first = ChatKeyEvent { pressed: true, key: ChatKey::Character(typed) };
    let second = ChatKeyEvent { pressed: true, key: ChatKey::Enter };
    let evs = seq![first, second];
    assert(evs.drop_last() =~= seq![first]);
    assert(seq![first].drop_last() =~= Seq::<ChatKeyEvent>::empty());
    assert(chat_after_keys(true, text, Seq::<ChatKeyEvent>::empty()) == (true, text, Seq::<Seq<char>>::empty()));
    assert(chat_after_keys(true, text, seq![first]) == (true, text + typed@, Seq::<Seq<char>>::empty()));
    assert(evs.last() == second);
    assert(Seq::<Seq<char>>::empty().push(text + typed@) =~= seq![text + typed@]);
}

} // verus!
