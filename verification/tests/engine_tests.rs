use seeborg::borg::Borg;
use seeborg::config::{BehaviorOverride, BehaviorOverrideValueResolver, MainBehavior};
use seeborg::dictionary::Dictionary;
use seeborg::pattern::Pattern;

fn compiled(text: &str) -> Pattern {
    let mut p = Pattern::new(text.to_string());
    p.compile().expect("pattern should compile");
    p
}

fn behavior() -> MainBehavior {
    MainBehavior {
        speaking: true,
        learning: true,
        reply_rate: 30,
        reply_nick: 40,
        reply_magic: 50,
        nick_patterns: vec![],
        magic_patterns: vec![],
        blacklisted_patterns: vec![],
        ignored_users: vec![],
    }
}

// should_learn("user1", ..., no override) with "user1" matching an
// ignored-user pattern refuses to learn.
#[test]
fn test_should_learn_ignored_user() {
    let mut b = behavior();
    b.ignored_users.push(compiled("user1"));
    let mut borg = Borg::new(Dictionary::new_empty(), b);
    assert_eq!(borg.should_learn("user1", "some text", &None), Ok(false));
    assert_eq!(borg.should_learn("user2", "some text", &None), Ok(true));
}

// With every effective pattern list empty the engine is never consulted,
// so the decisions cannot fail: learning is always granted, and with
// speaking off a reply is always refused.
#[test]
fn test_decisions_without_patterns() {
    let mut b = behavior();
    b.speaking = false;
    let mut borg = Borg::new(Dictionary::new_empty(), b);
    assert_eq!(borg.should_learn("anyone", "anything", &None), Ok(true));
    assert_eq!(borg.should_reply_to("anyone", "anything", &None), Ok(false));
}

// A blacklisted input is refused; anything else from a non-ignored user is
// learned.
#[test]
fn test_should_learn_blacklist() {
    let mut b = behavior();
    b.blacklisted_patterns.push(compiled(".*secret.*"));
    let mut borg = Borg::new(Dictionary::new_empty(), b);
    assert_eq!(borg.should_learn("user2", "a secret thing", &None), Ok(false));
    assert_eq!(borg.should_learn("user2", "a public thing", &None), Ok(true));
}

// Ignore precedence: a user matching an ignored-user pattern always gets a
// reply, regardless of speaking, reply rate and the draws.
#[test]
fn test_should_reply_ignored_user_always_replies() {
    let mut b = behavior();
    b.speaking = false;
    b.reply_rate = 100;
    b.ignored_users.push(compiled("user1"));
    let mut borg = Borg::new(Dictionary::new_empty(), b);
    for _ in 0..20 {
        assert_eq!(borg.should_reply_to("user1", "hello", &None), Ok(true));
    }
}

// Speaking gate: with speaking effectively off and the user not ignored,
// there is never a reply.
#[test]
fn test_should_reply_speaking_off() {
    let mut b = behavior();
    b.speaking = false;
    b.reply_rate = 0;
    let mut borg = Borg::new(Dictionary::new_empty(), b);
    for _ in 0..20 {
        assert_eq!(borg.should_reply_to("user2", "hello", &None), Ok(false));
    }
}

// The speaking gate follows the effective value: an override can switch it
// off for one chat.
#[test]
fn test_should_reply_speaking_off_via_override() {
    let b = behavior();
    let mut borg = Borg::new(Dictionary::new_empty(), b);
    let chain = Some(BehaviorOverrideValueResolver::new(
        BehaviorOverride {
            speaking: Some(false),
            learning: None,
            reply_rate: None,
            reply_nick: None,
            reply_magic: None,
            nick_patterns: None,
            magic_patterns: None,
            blacklisted_patterns: None,
            ignored_users: None,
        },
        None,
    ));
    for _ in 0..20 {
        assert_eq!(borg.should_reply_to("user2", "hello", &chain), Ok(false));
    }
}

// A reply rate of 100 never succeeds: the draw remainder is at most 99.
#[test]
fn test_should_reply_rate_hundred_never_replies() {
    let mut b = behavior();
    b.reply_rate = 100;
    let mut borg = Borg::new(Dictionary::new_empty(), b);
    for _ in 0..50 {
        assert_eq!(borg.should_reply_to("user2", "hello", &None), Ok(false));
    }
}

// The engine's reply comes verbatim from its dictionary, and a line with
// no known vocabulary gets none.
#[test]
fn test_engine_respond_to() {
    let dict = Dictionary {
        sentences: vec!["i love pizza.".to_string()],
        indices: vec![
            ("i".to_string(), vec![0]),
            ("love".to_string(), vec![0]),
            ("pizza".to_string(), vec![0]),
        ],
    };
    let mut borg = Borg::new(dict, behavior());
    assert_eq!(borg.respond_to("pizza!"), Some("i love pizza.".to_string()));
    assert_eq!(borg.respond_to("nothing known here"), None);
}

// Learning through the engine lower-cases and splits like the dictionary.
#[test]
fn test_engine_learn() {
    let mut borg = Borg::new(Dictionary::new_empty(), behavior());
    borg.learn("Crabs are great! Hello there.");
    assert_eq!(borg.respond_to("hello"), Some("hello there.".to_string()));
    assert_eq!(borg.respond_to("CRABS"), Some("crabs are great!".to_string()));
}
