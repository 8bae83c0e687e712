use seeborg::borg::{chance_with_draw, should_reply_to_with_draws};
use seeborg::config::{
    override_for_chat, BehaviorOverride, BehaviorOverrideValueResolver, BehaviorValueResolver,
    ChatBehaviorOverrides, MainBehavior,
};
use seeborg::pattern::{matches_any, Pattern, PatternError};

fn patterns(texts: &[&str]) -> Vec<Pattern> {
    let mut ps: Vec<Pattern> = Vec::new();
    for t in texts {
        let mut p = Pattern::new(t.to_string());
        p.compile().expect("pattern should compile");
        ps.push(p);
    }
    ps
}

fn base_behavior() -> MainBehavior {
    MainBehavior {
        speaking: true,
        learning: true,
        reply_rate: 30,
        reply_nick: 40,
        reply_magic: 50,
        nick_patterns: vec![],
        magic_patterns: vec![],
        blacklisted_patterns: vec![],
        ignored_users: vec![],
    }
}

fn unset_override() -> BehaviorOverride {
    BehaviorOverride {
        speaking: None,
        learning: None,
        reply_rate: None,
        reply_nick: None,
        reply_magic: None,
        nick_patterns: None,
        magic_patterns: None,
        blacklisted_patterns: None,
        ignored_users: None,
    }
}

#[test]
fn test_pattern_compile_and_match() {
    let mut p = Pattern::new("hell.*".to_string());
    assert!(!p.is_compiled());
    assert!(p.compile().is_ok());
    assert!(p.is_compiled());
    assert_eq!(p.matches("hello world"), Ok(true));
    assert_eq!(p.matches("nope"), Ok(false));
    assert_eq!(p.original(), "hell.*");
}

#[test]
fn test_pattern_compile_is_memoized() {
    let mut p = Pattern::new("abc".to_string());
    assert!(p.compile().is_ok());
    assert!(p.compile().is_ok());
    assert!(p.is_compiled());
}

#[test]
fn test_pattern_compile_error() {
    let mut p = Pattern::new("[unclosed".to_string());
    let r = p.compile();
    assert!(r.is_err());
    assert!(!p.is_compiled());
    // The engine's diagnostic is carried along.
    assert!(!r.unwrap_err().description().is_empty());
}

// With no compiled pattern to hand to the engine, matching cannot fail:
// an empty list is exactly "no match".
#[test]
fn test_matches_any_empty_list() {
    let empty: Vec<Pattern> = Vec::new();
    assert!(matches_any("anything", &empty).expect("engine never consulted").is_none());
}

#[test]
fn test_matches_any_order_and_errors() {
    let ps = patterns(&["aaa", "bbb"]);
    let hit = matches_any("bbb", &ps).expect("no engine failure");
    assert_eq!(hit.expect("should match").original(), "bbb");
    assert!(matches_any("ccc", &ps).expect("no engine failure").is_none());

    // The FIRST matching pattern is returned, in the given order.
    let both = patterns(&["x.*", ".*"]);
    let first = matches_any("xy", &both).expect("no engine failure");
    assert_eq!(first.expect("should match").original(), "x.*");

    // An uncompiled pattern surfaces an error instead of being skipped.
    let mut with_uncompiled = patterns(&["aaa"]);
    with_uncompiled.push(Pattern::new("bbb".to_string()));
    assert!(matches!(
        matches_any("bbb", &with_uncompiled),
        Err(PatternError::NotCompiled(_))
    ));
    // ... unless a pattern before it already matched.
    let early = matches_any("aaa", &with_uncompiled).expect("no engine failure");
    assert_eq!(early.expect("should match").original(), "aaa");
}

// A catastrophically backtracking pattern makes the engine give up at
// match time; that surfaces as a typed error, not a panic.
#[test]
fn test_match_engine_give_up() {
    let mut p = Pattern::new("(a|a)*$".to_string());
    p.compile().expect("pattern should compile");
    let input = "a".repeat(40) + "b";
    match p.matches(&input) {
        Err(PatternError::MatchFailed(e)) => {
            assert!(!e.description().is_empty());
        }
        other => panic!("expected an engine give-up, got {:?}", other),
    }
}

#[test]
fn test_compile_patterns_eagerly() {
    let mut b = base_behavior();
    b.nick_patterns = patterns(&[]);
    b.nick_patterns.push(Pattern::new("seeborg".to_string()));
    b.ignored_users.push(Pattern::new("user1".to_string()));
    assert!(b.compile_patterns().is_ok());
    assert!(b.nick_patterns[0].is_compiled());
    assert!(b.ignored_users[0].is_compiled());

    let mut bad = base_behavior();
    bad.magic_patterns.push(Pattern::new("[oops".to_string()));
    assert!(bad.compile_patterns().is_err());
}

// An override chain with all fields unset at every layer resolves to
// exactly the base policy's values, for all nine fields.
#[test]
fn test_override_fallback_chain_all_unset() {
    let base = MainBehavior {
        speaking: false,
        learning: true,
        reply_rate: 11,
        reply_nick: 22,
        reply_magic: 33,
        nick_patterns: patterns(&["nick"]),
        magic_patterns: patterns(&["magic"]),
        blacklisted_patterns: patterns(&["bad"]),
        ignored_users: patterns(&["troll"]),
    };
    let inner = BehaviorOverrideValueResolver::new(unset_override(), None);
    let chain = Some(BehaviorOverrideValueResolver::new(
        unset_override(),
        Some(Box::new(inner)),
    ));
    let r = BehaviorValueResolver::new(&base, chain.as_ref());
    assert_eq!(r.is_speaking(), false);
    assert_eq!(r.is_learning(), true);
    assert_eq!(r.reply_rate(), 11);
    assert_eq!(r.reply_nick(), 22);
    assert_eq!(r.reply_magic(), 33);
    assert_eq!(r.nick_patterns()[0].original(), "nick");
    assert_eq!(r.magic_patterns()[0].original(), "magic");
    assert_eq!(r.blacklisted_patterns()[0].original(), "bad");
    assert_eq!(r.ignored_users()[0].original(), "troll");
}

// The more specific layer wins where it sets a field; the rest fall through.
#[test]
fn test_override_layering() {
    let base = base_behavior();
    let mut outer = unset_override();
    outer.reply_rate = Some(77);
    outer.speaking = Some(false);
    let mut inner = unset_override();
    inner.speaking = Some(true);
    let inner_r = BehaviorOverrideValueResolver::new(inner, None);
    let chain = Some(BehaviorOverrideValueResolver::new(
        outer,
        Some(Box::new(inner_r)),
    ));
    let r = BehaviorValueResolver::new(&base, chain.as_ref());
    assert_eq!(r.is_speaking(), true);  // inner layer wins
    assert_eq!(r.reply_rate(), 77);  // outer layer wins over base
    assert_eq!(r.reply_nick(), 40);  // base
}

#[test]
fn test_override_for_chat() {
    let chats = vec![
        ChatBehaviorOverrides {
            chat_id: "100".to_string(),
            behavior: unset_override(),
        },
        ChatBehaviorOverrides {
            chat_id: "200".to_string(),
            behavior: BehaviorOverride { speaking: Some(false), ..unset_override() },
        },
    ];
    assert!(override_for_chat(&chats, "100").is_some());
    let found = override_for_chat(&chats, "200").expect("should find chat 200");
    assert_eq!(found.speaking, Some(false));
    assert!(override_for_chat(&chats, "300").is_none());
}

// The draw formula, literally: a draw r in [0, 99] succeeds when r > rate,
// so rate 0 replies on 99 of 100 draws, and the r == 100 edge never fires.
#[test]
fn test_chance_with_draw_formula() {
    assert!(chance_with_draw(0, 5));
    assert!(chance_with_draw(0, 99));
    assert!(!chance_with_draw(0, 0));
    assert!(!chance_with_draw(0, 100));  // 100 % 100 == 0
    assert!(chance_with_draw(0, 101));
    assert!(!chance_with_draw(99, 199));
    assert!(!chance_with_draw(100, 12345));
    assert!(chance_with_draw(50, 51));
    assert!(!chance_with_draw(50, 50));
}

// With reply_rate = 0, no nick/magic match, user not ignored and speaking
// on, the reply probability is 99/100: every draw except a multiple of 100
// replies.
#[test]
fn test_reply_rate_zero_draws() {
    let mut b = base_behavior();
    b.reply_rate = 0;
    assert_eq!(
        should_reply_to_with_draws(&b, &None, "user9", "some text", 0, 0, 5),
        Ok(true)
    );
    assert_eq!(
        should_reply_to_with_draws(&b, &None, "user9", "some text", 0, 0, 0),
        Ok(false)
    );
    assert_eq!(
        should_reply_to_with_draws(&b, &None, "user9", "some text", 0, 0, 200),
        Ok(false)
    );
    assert_eq!(
        should_reply_to_with_draws(&b, &None, "user9", "some text", 0, 0, 201),
        Ok(true)
    );
}

// The ordered checks of the reply decision, driven by explicit draws.
#[test]
fn test_should_reply_order_with_draws() {
    let mut b = base_behavior();
    b.nick_patterns = patterns(&["seeborg.*"]);
    b.magic_patterns = patterns(&[".*cake.*"]);
    b.reply_nick = 40;
    b.reply_magic = 50;
    b.reply_rate = 98;

    // Nick match, nick draw succeeds (41 > 40).
    assert_eq!(
        should_reply_to_with_draws(&b, &None, "u", "seeborg hello", 41, 0, 0),
        Ok(true)
    );
    // Nick match, nick draw fails; falls through to the rate (0 > 98 is false).
    assert_eq!(
        should_reply_to_with_draws(&b, &None, "u", "seeborg hello", 40, 0, 0),
        Ok(false)
    );
    // Magic match, magic draw succeeds.
    assert_eq!(
        should_reply_to_with_draws(&b, &None, "u", "have some cake!", 0, 51, 0),
        Ok(true)
    );
    // Magic match, magic draw fails, rate draw succeeds (99 > 98).
    assert_eq!(
        should_reply_to_with_draws(&b, &None, "u", "have some cake!", 0, 50, 99),
        Ok(true)
    );
    // Speaking off gates everything but the ignore list.
    b.speaking = false;
    assert_eq!(
        should_reply_to_with_draws(&b, &None, "u", "seeborg hello", 99, 99, 99),
        Ok(false)
    );
}

// An uncompiled pattern in a consulted list is a typed error.
#[test]
fn test_should_reply_uncompiled_pattern_error() {
    let mut b = base_behavior();
    b.ignored_users.push(Pattern::new("troll".to_string()));
    assert!(matches!(
        should_reply_to_with_draws(&b, &None, "u", "text", 0, 0, 0),
        Err(PatternError::NotCompiled(_))
    ));
}

// A compile failure reports the first failing pattern's diagnostic, in
// list order: the magic list is compiled before the nickname list.
#[test]
fn test_compile_patterns_first_failure() {
    let mut b = base_behavior();
    b.magic_patterns.push(Pattern::new("[first".to_string()));
    b.nick_patterns.push(Pattern::new("[second".to_string()));
    let e = b.compile_patterns().expect_err("should fail");
    let mut only_magic = base_behavior();
    only_magic.magic_patterns.push(Pattern::new("[first".to_string()));
    let e_magic = only_magic.compile_patterns().expect_err("should fail");
    assert_eq!(e.description(), e_magic.description());
}
