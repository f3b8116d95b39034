use station::chat::{
    change_chat_mode, make_chat_message, open_chat, ChatKey, ChatKeyEvent, ChatMode, ChatOpened, MessageText,
};

fn press(key: ChatKey) -> ChatKeyEvent {
    ChatKeyEvent { pressed: true, key }
}

fn release(key: ChatKey) -> ChatKeyEvent {
    ChatKeyEvent { pressed: false, key }
}

fn ch(s: &str) -> ChatKey {
    ChatKey::Character(s.to_string())
}

#[test]
fn next_gives_successor_and_keeps_mode() {
    let mut m = ChatMode::Say;
    assert_eq!(m.next(), ChatMode::Radio);
    assert_eq!(m, ChatMode::Say);
    assert_eq!(ChatMode::Radio.next(), ChatMode::Emotion);
    assert_eq!(ChatMode::Emotion.next(), ChatMode::LOOC);
    assert_eq!(ChatMode::LOOC.next(), ChatMode::OOC);
    assert_eq!(ChatMode::OOC.next(), ChatMode::Say);
}

#[test]
fn five_steps_return_to_start() {
    for start in [ChatMode::Say, ChatMode::Radio, ChatMode::Emotion, ChatMode::LOOC, ChatMode::OOC] {
        let mut m = start;
        for _ in 0..5 {
            m = m.next();
        }
        assert_eq!(m, start);
    }
}

#[test]
fn default_mode_is_say() {
    assert_eq!(ChatMode::default(), ChatMode::Say);
}

#[test]
fn open_chat_opens_on_t_and_closes_on_escape() {
    let mut c = ChatOpened(false);
    open_chat(&mut c, true, false);
    assert!(c.0);
    open_chat(&mut c, true, false);
    assert!(c.0);
    open_chat(&mut c, false, true);
    assert!(!c.0);
    open_chat(&mut c, false, false);
    assert!(!c.0);
    // both keys in the same frame: opened, then closed again
    open_chat(&mut c, true, true);
    assert!(!c.0);
}

#[test]
fn tab_leaves_mode_unchanged() {
    let mut m = ChatMode::Radio;
    change_chat_mode(&mut m, true);
    assert_eq!(m, ChatMode::Radio);
    change_chat_mode(&mut m, false);
    assert_eq!(m, ChatMode::Radio);
}

#[test]
fn typing_and_sending_a_line() {
    let mut opened = ChatOpened(true);
    let mut text = MessageText(String::new());
    let keys = vec![
        press(ch("h")),
        press(ch("i")),
        press(ChatKey::Space),
        press(ch("x")),
        press(ChatKey::Backspace),
        press(ch("y")),
        release(ch("z")),
        press(ChatKey::Other),
        press(ChatKey::Enter),
        press(ch("w")),
    ];
    let sent = make_chat_message(&mut opened, ChatMode::OOC, &keys, &mut text);
    assert_eq!(sent.len(), 1);
    assert_eq!(sent[0].text, "hi y");
    assert_eq!(sent[0].chat_mode, ChatMode::OOC);
    assert!(!opened.0);
    // the text is not cleared after sending, and later keys are ignored
    assert_eq!(text.0, "hi y");
}

#[test]
fn closed_chat_ignores_keys() {
    let mut opened = ChatOpened(false);
    let mut text = MessageText("abc".to_string());
    let keys = vec![press(ch("q")), press(ChatKey::Backspace), press(ChatKey::Enter)];
    let sent = make_chat_message(&mut opened, ChatMode::Say, &keys, &mut text);
    assert!(sent.is_empty());
    assert!(!opened.0);
    assert_eq!(text.0, "abc");
}

#[test]
fn backspace_on_empty_text_does_nothing() {
    let mut opened = ChatOpened(true);
    let mut text = MessageText(String::new());
    let keys = vec![press(ChatKey::Backspace), press(ch("ab"))];
    let sent = make_chat_message(&mut opened, ChatMode::Say, &keys, &mut text);
    assert!(sent.is_empty());
    assert!(opened.0);
    assert_eq!(text.0, "ab");
}

#[test]
fn at_most_one_line_per_batch() {
    let mut opened = ChatOpened(true);
    let mut text = MessageText(String::new());
    let keys = vec![press(ch("a")), press(ChatKey::Enter), press(ch("b")), press(ChatKey::Enter)];
    let sent = make_chat_message(&mut opened, ChatMode::Radio, &keys, &mut text);
    assert_eq!(sent.len(), 1);
    assert_eq!(sent[0].text, "a");
}
