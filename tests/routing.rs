use grammersthon::{
    ChatKind, DataStore, HandlerFilter, Handlers, MediaKind, MessageInfo,
    Param, ReplyKind, Route,
};

fn text_message(text: &str) -> MessageInfo {
    MessageInfo {
        text: text.to_string(),
        media: None,
        chat: ChatKind::User,
        reply: None,
        forwarded: false,
    }
}

fn no_predicates(_: u64) -> bool {
    false
}

#[test]
fn earlier_registration_wins() {
    let mut t = Handlers::new();
    let a = t.add(vec![HandlerFilter::Regex("x".to_string())], vec![]);
    let b = t.add(vec![HandlerFilter::Regex("x".to_string())], vec![]);
    assert_eq!((a, b), (0, 1));
    let data: DataStore<()> = DataStore::new();
    assert_eq!(t.route(&text_message("x"), &data, &no_predicates), Route::Handler(0));
}

#[test]
fn sticker_handler_skipped_for_text() {
    let mut t = Handlers::new();
    t.add(vec![HandlerFilter::Fn(1)], vec![Param::Sticker]);
    t.add(vec![HandlerFilter::Regex("^hi".to_string())], vec![Param::Message]);
    let data: DataStore<()> = DataStore::new();
    let always = |_: u64| true;
    assert_eq!(t.route(&text_message("hi there"), &data, &always), Route::Handler(1));
    assert_eq!(t.route(&text_message("bye"), &data, &always), Route::Fallback);
    let mut sticker = text_message("bye");
    sticker.media = Some(MediaKind::Sticker);
    assert_eq!(t.route(&sticker, &data, &always), Route::Handler(0));
}

#[test]
fn all_filters_must_hold() {
    let mut t = Handlers::new();
    t.add(vec![HandlerFilter::Regex("^/ping$".to_string()), HandlerFilter::Fn(7)], vec![]);
    let data: DataStore<()> = DataStore::new();
    let only_seven = |id: u64| id == 7;
    assert_eq!(t.route(&text_message("/ping"), &data, &only_seven), Route::Handler(0));
    assert_eq!(t.route(&text_message("/ping"), &data, &no_predicates), Route::Fallback);
    assert_eq!(t.route(&text_message("/pong"), &data, &only_seven), Route::Fallback);
}

#[test]
fn chat_reply_and_forward_kinds() {
    let mut t = Handlers::new();
    t.add(vec![], vec![Param::Group]);
    t.add(vec![], vec![Param::ReplyHeader, Param::ForwardHeader]);
    t.add(vec![], vec![Param::StoryReplyHeader]);
    t.set_message_fallback(vec![Param::Channel]);
    let data: DataStore<()> = DataStore::new();
    let mut m = text_message("x");
    m.chat = ChatKind::Group;
    assert_eq!(t.route(&m, &data, &no_predicates), Route::Handler(0));
    m.chat = ChatKind::User;
    m.reply = Some(ReplyKind::Message);
    assert_eq!(t.route(&m, &data, &no_predicates), Route::Unsatisfied);
    m.forwarded = true;
    assert_eq!(t.route(&m, &data, &no_predicates), Route::Handler(1));
    m.reply = Some(ReplyKind::Story);
    assert_eq!(t.route(&m, &data, &no_predicates), Route::Handler(2));
    m.reply = None;
    m.chat = ChatKind::Channel;
    assert_eq!(t.route(&m, &data, &no_predicates), Route::Fallback);
}

#[test]
fn registered_data_is_required() {
    let mut t = Handlers::new();
    t.add(vec![], vec![Param::Data(3)]);
    let mut data: DataStore<&str> = DataStore::new();
    assert_eq!(t.route(&text_message("x"), &data, &no_predicates), Route::Fallback);
    data.insert(3, "first");
    data.insert(3, "second");
    data.insert(4, "other");
    assert_eq!(data.get(3), Some(&"second"));
    assert_eq!(data.get(5), None);
    assert!(data.contains(4));
    assert_eq!(t.route(&text_message("x"), &data, &no_predicates), Route::Handler(0));
    assert_eq!(grammersthon::Data(5u8).inner(), 5);
}

#[test]
fn unparsable_arguments_fall_through() {
    let mut t = Handlers::new();
    let shape = grammersthon::ArgShape {
        fields: vec![grammersthon::FieldKind::One(grammersthon::ScalarKind::Flag)],
        rest: false,
    };
    t.add(vec![HandlerFilter::Regex("^/on".to_string())], vec![Param::Args(shape)]);
    let data: DataStore<()> = DataStore::new();
    assert_eq!(t.route(&text_message("/on yes"), &data, &no_predicates), Route::Handler(0));
    assert_eq!(t.route(&text_message("/on perhaps"), &data, &no_predicates), Route::Fallback);
    assert_eq!(t.route(&text_message("/on"), &data, &no_predicates), Route::Fallback);
}

#[test]
fn invalid_pattern_is_refused() {
    assert!(!grammersthon::filters_compile(&vec![
        HandlerFilter::Fn(0),
        HandlerFilter::Regex("(".to_string()),
    ]));
    assert!(grammersthon::filters_compile(&vec![
        HandlerFilter::Fn(0),
        HandlerFilter::Regex("^/start$".to_string()),
    ]));
}

#[test]
fn routing_from_a_later_handler() {
    let mut t = Handlers::new();
    t.add(vec![HandlerFilter::Regex("x".to_string())], vec![]);
    t.add(vec![HandlerFilter::Regex("y".to_string())], vec![]);
    t.add(vec![HandlerFilter::Regex("x".to_string())], vec![]);
    let data: DataStore<()> = DataStore::new();
    assert_eq!(t.route_from(0, &text_message("x"), &data, &no_predicates), Route::Handler(0));
    assert_eq!(t.route_from(1, &text_message("x"), &data, &no_predicates), Route::Handler(2));
    assert_eq!(t.route_from(3, &text_message("x"), &data, &no_predicates), Route::Fallback);
    assert_eq!(t.route_from(9, &text_message("x"), &data, &no_predicates), Route::Fallback);
}

#[test]
fn pattern_mutator_rewrites_patterns() {
    let mut t = Handlers::new();
    t.add(vec![HandlerFilter::Regex("^ping$".to_string()), HandlerFilter::Fn(2)], vec![]);
    let prefix = |p: &String| format!("^/{}", p.trim_start_matches('^'));
    assert!(t.mutate_patterns(&prefix).is_ok());
    let data: DataStore<()> = DataStore::new();
    let yes = |_: u64| true;
    assert_eq!(t.route(&text_message("/ping"), &data, &yes), Route::Handler(0));
    assert_eq!(t.route(&text_message("ping"), &data, &yes), Route::Fallback);
    let broken = |_: &String| "(".to_string();
    assert!(t.mutate_patterns(&broken).is_err());
    assert_eq!(t.route(&text_message("/ping"), &data, &yes), Route::Handler(0));
}

#[test]
fn interceptor_flag() {
    let mut t = Handlers::new();
    assert!(!t.has_interceptor());
    t.set_interceptor(true);
    assert!(t.has_interceptor());
}

#[test]
fn checked_registration() {
    let mut t = Handlers::new();
    let r = t.try_add(vec![HandlerFilter::Regex("ok".to_string()), HandlerFilter::Regex("(".to_string())], vec![]);
    assert!(matches!(r, Err(grammersthon::GrammersthonError::Parse(ref p, None)) if p == "("));
    let bad = grammersthon::ArgShape {
        fields: vec![grammersthon::FieldKind::One(grammersthon::ScalarKind::Integer { min: 3, max: 9 })],
        rest: false,
    };
    let r = t.try_add(vec![], vec![Param::Args(bad)]);
    assert!(matches!(r, Err(grammersthon::GrammersthonError::MissingParameters(_))));
    assert_eq!(t.len(), 0);
    assert_eq!(t.try_add(vec![HandlerFilter::Regex("^go$".to_string())], vec![Param::Text]).unwrap(), 0);
    let data: DataStore<()> = DataStore::new();
    assert_eq!(t.route(&text_message("go"), &data, &no_predicates), Route::Handler(0));
}
