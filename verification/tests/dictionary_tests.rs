use seeborg::dictionary::{insert_word_into_indices, split_sentences, split_words, Dictionary, Indices};

fn positions(d: &Dictionary, word: &str) -> Option<Vec<usize>> {
    d.indices.iter().find(|e| e.0 == word).map(|e| e.1.clone())
}

#[test]
fn test_split_sentences() {
    assert_eq!(
        vec![
            "Hi.",
            "This sentence is going to be split.",
            "We.cant.split.things.that.look.like.urls.",
            "That's a single sentence.",
            "Lol!",
            "A single sentence!!!!",
            "Look at this image: https://imgur.com/gallery/PXSNky0"
        ],
        split_sentences(
            "Hi. This sentence is going to be split. \
            We.cant.split.things.that.look.like.urls. That's a single sentence. \
            Lol! A single sentence!!!! Look at this image: https://imgur.com/gallery/PXSNky0"
        ),
    );
}

// This tests that the Dictionary::rebuild_indices function is building indices correctly.
#[test]
fn test_dictionary_rebuild_indices() {
    let mut d = Dictionary {
        sentences: vec![
            "this is a test.".to_string(),
            "this is is not a trick!".to_string(), // The double "is" is intentional
            "hello world!".to_string(),
        ],
        indices: vec![],
    };
    d.rebuild_indices();

    // Ensure that sentences were sorted after rebuilding indices.
    assert_eq!(
        vec![
            "hello world!".to_string(),
            "this is a test.".to_string(),
            "this is is not a trick!".to_string(),
        ],
        d.sentences
    );

    // Ensure that the indices were correctly built.
    assert_eq!(d.indices.len(), 8);
    assert_eq!(positions(&d, "this"), Some(vec![1, 2]));
    assert_eq!(positions(&d, "is"), Some(vec![1, 2]));
    assert_eq!(positions(&d, "a"), Some(vec![1, 2]));
    assert_eq!(positions(&d, "test"), Some(vec![1]));
    assert_eq!(positions(&d, "not"), Some(vec![2]));
    assert_eq!(positions(&d, "trick"), Some(vec![2]));
    assert_eq!(positions(&d, "hello"), Some(vec![0]));
    assert_eq!(positions(&d, "world"), Some(vec![0]));
}

#[test]
fn test_split_words() {
    assert_eq!(
        vec!["Hello", "world", "This", "is", "a", "test", "I", "am", "a", "test"],
        split_words("...Hello world!!!!This is a test? I.am.a.test.")
    );
}

#[test]
fn test_needs_to_build_indices() {
    // Indices should have to be rebuilt when the bot has sentences,
    // but no indices. On other conditions, it assumes that the indices
    // are correct and that they do not need to be rebuilt.

    assert!(Dictionary {
        sentences: vec!["hello world".to_string()],
        indices: vec![],
    }
    .needs_to_build_indices());

    assert!(!Dictionary {
        sentences: vec!["hello world".to_string()],
        indices: vec![
            ("hello".to_string(), vec![0]),
            ("world".to_string(), vec![0]),
        ],
    }
    .needs_to_build_indices());

    assert!(!Dictionary {
        sentences: vec![],
        indices: vec![],
    }
    .needs_to_build_indices());
}

#[test]
fn test_knows_sentence() {
    let d = Dictionary {
        sentences: vec![
            "hello world".to_string(),
            "i am a little teapot.".to_string(),
            "my name is foo...".to_string(),
            "short and stout".to_string(),
        ],
        indices: vec![
            ("hello".to_string(), vec![0]),
            ("world".to_string(), vec![0]),
            ("i".to_string(), vec![1]),
            ("am".to_string(), vec![1]),
            ("a".to_string(), vec![1]),
            ("little".to_string(), vec![1]),
            ("teapot".to_string(), vec![1]),
            ("my".to_string(), vec![2]),
            ("name".to_string(), vec![2]),
            ("is".to_string(), vec![2]),
            ("foo".to_string(), vec![2]),
            ("short".to_string(), vec![3]),
            ("and".to_string(), vec![3]),
            ("stout".to_string(), vec![3]),
        ],
    };
    assert!(d.knows_sentence("my name is foo..."));
    assert!(d.knows_sentence("i am a little teapot."));
    assert!(d.knows_sentence("short and stout"));
    assert!(!d.knows_sentence("i shouldn't know this"));
    assert!(!d.knows_sentence(""));
    assert!(!d.knows_sentence("0"));
    assert!(!d.knows_sentence("a"));
}

#[test]
fn test_knows_word() {
    let d = Dictionary {
        sentences: vec![
            "and i am a little teapot".to_string(),
            "my name is josh and i am a little teapot".to_string(),
        ],
        indices: vec![
            ("and".to_string(), vec![0, 1]),
            ("i".to_string(), vec![0, 1]),
            ("am".to_string(), vec![0, 1]),
            ("a".to_string(), vec![0, 1]),
            ("little".to_string(), vec![0, 1]),
            ("teapot".to_string(), vec![0, 1]),
            ("my".to_string(), vec![1]),
            ("name".to_string(), vec![1]),
            ("is".to_string(), vec![1]),
            ("josh".to_string(), vec![1]),
        ],
    };

    assert!(d.knows_word("and"));
    assert!(d.knows_word("teapot"));
    assert!(d.knows_word("josh"));
    assert!(!d.knows_word("rat"));
    assert!(!d.knows_word("dog"));
    assert!(!d.knows_word(" "));
    assert!(!d.knows_word(""));
}

#[test]
fn test_insert_word_into_indices() {
    let mut indices: Indices = vec![("joy".to_string(), vec![1, 2])];
    insert_word_into_indices(&mut indices, "john", 10);
    assert_eq!(
        vec![
            ("joy".to_string(), vec![1, 2]),
            ("john".to_string(), vec![10]),
        ],
        indices
    );
    insert_word_into_indices(&mut indices, "john", 20);
    assert_eq!(
        vec![
            ("joy".to_string(), vec![1, 2]),
            ("john".to_string(), vec![10, 20]),
        ],
        indices
    );
    insert_word_into_indices(&mut indices, "joy", 1);
    assert_eq!(
        vec![
            ("joy".to_string(), vec![1, 2]),
            ("john".to_string(), vec![10, 20]),
        ],
        indices
    );
    insert_word_into_indices(&mut indices, "joy", 6);
    assert_eq!(
        vec![
            ("joy".to_string(), vec![1, 2, 6]),
            ("john".to_string(), vec![10, 20]),
        ],
        indices
    );
}

#[test]
fn test_learn() {
    let mut dict = Dictionary {
        sentences: vec![],
        indices: vec![],
    };
    dict.learn("Hey there, everyone!");
    assert_eq!(vec!["hey there, everyone!".to_string()], dict.sentences);
    assert_eq!(dict.indices.len(), 3);
    assert_eq!(positions(&dict, "hey"), Some(vec![0]));
    assert_eq!(positions(&dict, "there"), Some(vec![0]));
    assert_eq!(positions(&dict, "everyone"), Some(vec![0]));

    dict.learn("How is everyone doing today?!");
    assert_eq!(
        vec![
            "hey there, everyone!".to_string(),
            "how is everyone doing today?!".to_string(),
        ],
        dict.sentences
    );
    assert_eq!(dict.indices.len(), 7);
    assert_eq!(positions(&dict, "hey"), Some(vec![0]));
    assert_eq!(positions(&dict, "there"), Some(vec![0]));
    assert_eq!(positions(&dict, "everyone"), Some(vec![0, 1]));
    assert_eq!(positions(&dict, "how"), Some(vec![1]));
    assert_eq!(positions(&dict, "is"), Some(vec![1]));
    assert_eq!(positions(&dict, "doing"), Some(vec![1]));
    assert_eq!(positions(&dict, "today"), Some(vec![1]));

    dict.learn("I've been doing fine today, what about you?");
    assert_eq!(
        vec![
            "hey there, everyone!".to_string(),
            "how is everyone doing today?!".to_string(),
            "i've been doing fine today, what about you?".to_string(),
        ],
        dict.sentences
    );
    assert_eq!(dict.indices.len(), 13);
    assert_eq!(positions(&dict, "hey"), Some(vec![0]));
    assert_eq!(positions(&dict, "there"), Some(vec![0]));
    assert_eq!(positions(&dict, "everyone"), Some(vec![0, 1]));
    assert_eq!(positions(&dict, "how"), Some(vec![1]));
    assert_eq!(positions(&dict, "is"), Some(vec![1]));
    assert_eq!(positions(&dict, "doing"), Some(vec![1, 2]));
    assert_eq!(positions(&dict, "today"), Some(vec![1, 2]));
    assert_eq!(positions(&dict, "i've"), Some(vec![2]));
    assert_eq!(positions(&dict, "been"), Some(vec![2]));
    assert_eq!(positions(&dict, "fine"), Some(vec![2]));
    assert_eq!(positions(&dict, "what"), Some(vec![2]));
    assert_eq!(positions(&dict, "about"), Some(vec![2]));
    assert_eq!(positions(&dict, "you"), Some(vec![2]));
}

#[test]
fn test_known_words() {
    let dict = Dictionary {
        sentences: vec!["hello world!".to_string(), "i love pizza.".to_string()],
        indices: vec![
            ("hello".to_string(), vec![0]),
            ("world".to_string(), vec![0]),
            ("i".to_string(), vec![1]),
            ("love".to_string(), vec![1]),
            ("pizza".to_string(), vec![1]),
        ],
    };

    let empty: Vec<&str> = vec![];

    assert_eq!(dict.known_words("I Love Pizza"), vec!["i", "love", "pizza"]);
    assert_eq!(dict.known_words("I Hate Pizza!"), vec!["i", "pizza"]);
    assert_eq!(dict.known_words("I Love You"), vec!["i", "love"]);
    assert_eq!(dict.known_words("foo likes cake"), empty);
    assert_eq!(dict.known_words("pizzacake"), empty);
}

#[test]
fn test_sentences_with_word() {
    let dict = Dictionary {
        sentences: vec![
            "hello world!".to_string(),
            "i love pizza.".to_string(),
            "pizza is like, cool".to_string(),
        ],
        indices: vec![
            ("hello".to_string(), vec![0]),
            ("world".to_string(), vec![0]),
            ("i".to_string(), vec![1]),
            ("love".to_string(), vec![1]),
            ("pizza".to_string(), vec![1, 2]),
            ("is".to_string(), vec![2]),
            ("like".to_string(), vec![2]),
            ("cool".to_string(), vec![2]),
        ],
    };

    let empty: Vec<&str> = vec![];

    assert_eq!(
        dict.sentences_with_word("pizza"),
        vec!["i love pizza.", "pizza is like, cool"]
    );
    assert_eq!(dict.sentences_with_word("love"), vec!["i love pizza."]);
    assert_eq!(dict.sentences_with_word("nonexisting"), empty);
    assert_eq!(dict.sentences_with_word("luve"), empty);
    assert_eq!(dict.sentences_with_word(""), empty);
}

// Learning two lines on an empty dictionary, then rebuilding, sorts the
// sentences case-insensitively and indexes every word at its sentence's
// position.
#[test]
fn test_learn_then_rebuild_scenario() {
    let mut d = Dictionary::new_empty();
    assert!(d.learn("Hello world! I love pizza."));
    assert!(d.learn("I love cake."));
    d.rebuild_indices();

    assert_eq!(
        d.sentences,
        vec![
            "hello world!".to_string(),
            "i love cake.".to_string(),
            "i love pizza.".to_string(),
        ]
    );
    assert_eq!(positions(&d, "love"), Some(vec![1, 2]));
    assert_eq!(positions(&d, "i"), Some(vec![1, 2]));
    assert_eq!(positions(&d, "hello"), Some(vec![0]));
    assert_eq!(positions(&d, "world"), Some(vec![0]));
    assert_eq!(positions(&d, "cake"), Some(vec![1]));
    assert_eq!(positions(&d, "pizza"), Some(vec![2]));
}

// Learning the same line twice on a sorted dictionary stores it once.
#[test]
fn test_learn_same_line_twice() {
    let mut d = Dictionary::new_empty();
    assert!(d.learn("crabs are great."));
    assert!(!d.learn("crabs are great."));
    assert_eq!(d.sentences, vec!["crabs are great.".to_string()]);
    assert_eq!(positions(&d, "crabs"), Some(vec![0]));
    assert_eq!(positions(&d, "are"), Some(vec![0]));
    assert_eq!(positions(&d, "great"), Some(vec![0]));
}

// A learned line is reported as learned exactly when something new was stored.
#[test]
fn test_learn_reports_new_content() {
    let mut d = Dictionary::new_empty();
    assert!(d.learn("one sentence here."));
    assert!(d.learn("one sentence here. and another!"));
    assert!(!d.learn("AND ANOTHER!"));
    assert_eq!(
        d.sentences,
        vec!["one sentence here.".to_string(), "and another!".to_string()]
    );
}

// The response is fully determined by the dictionary state and the draws,
// and is a verbatim stored sentence containing a known word of the line.
#[test]
fn test_respond_to_draws() {
    let dict = Dictionary {
        sentences: vec!["hello world!".to_string(), "i love pizza.".to_string()],
        indices: vec![
            ("hello".to_string(), vec![0]),
            ("world".to_string(), vec![0]),
            ("i".to_string(), vec![1]),
            ("love".to_string(), vec![1]),
            ("pizza".to_string(), vec![1]),
        ],
    };

    // "pizza" is the only known word of the line, whatever the draws.
    assert_eq!(
        dict.respond_to("Pizza time", 0, 0),
        Some("i love pizza.".to_string())
    );
    assert_eq!(
        dict.respond_to("Pizza time", 7, 123),
        Some("i love pizza.".to_string())
    );
    // Same state, same draws: same answer.
    assert_eq!(dict.respond_to("hello pizza", 1, 5), dict.respond_to("hello pizza", 1, 5));
    // The word draw picks the pivot among ["hello", "pizza"].
    assert_eq!(
        dict.respond_to("hello pizza", 0, 0),
        Some("hello world!".to_string())
    );
    assert_eq!(
        dict.respond_to("hello pizza", 1, 0),
        Some("i love pizza.".to_string())
    );
    // A repeated word counts once: the pivot is drawn among the distinct
    // known words, here ["pizza", "hello"].
    assert_eq!(
        dict.respond_to("pizza pizza hello", 1, 0),
        Some("hello world!".to_string())
    );
    // No vocabulary overlap is a normal "nothing to say".
    assert_eq!(dict.respond_to("completely unknown words", 0, 0), None);
}

// An empty dictionary has nothing to say.
#[test]
fn test_respond_to_empty() {
    let d = Dictionary::new_empty();
    assert_eq!(d.respond_to("anything at all", 3, 4), None);
}

// The well-formedness check accepts a consistent index, and refuses one
// pointing past the sentence list or holding an empty entry.
#[test]
fn test_index_well_formed_check() {
    let good = Dictionary {
        sentences: vec!["hello world".to_string()],
        indices: vec![("hello".to_string(), vec![0]), ("world".to_string(), vec![0])],
    };
    assert!(good.index_well_formed_check());
    let out_of_bounds = Dictionary {
        sentences: vec!["hello world".to_string()],
        indices: vec![("hello".to_string(), vec![7])],
    };
    assert!(!out_of_bounds.index_well_formed_check());
    let empty_entry = Dictionary {
        sentences: vec!["hello world".to_string()],
        indices: vec![("hello".to_string(), vec![])],
    };
    assert!(!empty_entry.index_well_formed_check());
}
