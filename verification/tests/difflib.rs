use stringdiff::difflib::{chars_of, same_chars, DiffCell, DiffOperation, StringDiff};

#[test]
fn empty_strings() {
    let _old = String::from("");
    let _new = String::from("");
    let mut sd = StringDiff::new();
    let res = sd.get_diff(&_old, &_new);
    assert_eq!(res.len() == 0, true);
}

#[test]
fn equal_strings() {
    let _old = String::from("Hello world");
    let _new = String::from("Hello world");
    let mut sd = StringDiff::new();
    let res = sd.get_diff(&_old, &_new);
    assert_eq!(res.len() == 0, true);
}

#[test]
fn swap_first_characters() {
    let _old = String::from("Hleol world");
    let _new = String::from("Hello world");
    let mut sd = StringDiff::new();
    let vec = sd.get_diff(&_old, &_new);

    assert_eq!(vec.len(), 3);

    assert_eq!(vec[0].start, 4);
    assert_eq!(vec[0].count, 1);
    assert_eq!(vec[0].operation, DiffOperation::Remove);

    assert_eq!(vec[1].start, 2);
    assert_eq!(vec[1].count, 1);
    assert_eq!(vec[1].operation, DiffOperation::Update);

    assert_eq!(vec[2].start, 1);
    assert_eq!(vec[2].count, 1);
    assert_eq!(vec[2].operation, DiffOperation::Insert);
}

#[test]
fn swap_characters() {
    let _old = String::from("Hello world");
    let _new = String::from("Hello wordl");
    let mut sd = StringDiff::new();
    let vec = sd.get_diff(&_old, &_new);

    assert_eq!(vec.len(), 1);
    assert_eq!(vec[0].start, 9);
    assert_eq!(vec[0].count, 2);
    assert_eq!(vec[0].operation, DiffOperation::Update);
}

#[test]
fn remove_to_empty() {
    let _old = String::from("H");
    let _new = String::from("");
    let mut sd = StringDiff::new();
    let vec = sd.get_diff(&_old, &_new);

    println!("vec: {:?}", vec);

    assert_eq!(vec.len(), 1);

    assert_eq!(vec[0].start, 0);
    assert_eq!(vec[0].count, 1);
    assert_eq!(vec[0].operation, DiffOperation::Remove);
}

#[test]
fn add_to_empty() {
    let _old = String::from("");
    let _new = String::from("Hello");
    let mut sd = StringDiff::new();
    let vec = sd.get_diff(&_old, &_new);

    println!("vec: {:?}", vec);

    assert_eq!(vec.len(), 1);

    assert_eq!(vec[0].start, 0);
    assert_eq!(vec[0].count, 5);
    assert_eq!(vec[0].operation, DiffOperation::Insert);
}

#[test]
fn add_character() {
    let _old = String::from("Hello worl");
    let _new = String::from("Hello world");
    let mut sd = StringDiff::new();
    let vec = sd.get_diff(&_old, &_new);

    assert_eq!(vec.len(), 1);
    assert_eq!(vec[0].start, 10);
    assert_eq!(vec[0].count, 1);
    assert_eq!(vec[0].operation, DiffOperation::Insert);
}

#[test]
fn remove_multiple_characters() {
    let _old = String::from("Hello world");
    let _new = String::from("H");
    let mut sd = StringDiff::new();
    let vec = sd.get_diff(&_old, &_new);

    assert_eq!(vec.len(), 1);
    assert_eq!(vec[0].start, 1);
    assert_eq!(vec[0].count, 10);
    assert_eq!(vec[0].operation, DiffOperation::Remove);
}

#[test]
fn update_remove() {
    let _old = String::from("Hallo");
    let _new = String::from("Hello world");
    let mut sd = StringDiff::new();
    let vec = sd.get_diff(&_old, &_new);

    assert_eq!(vec.len(), 2);
    assert_eq!(vec[0].start, 5);
    assert_eq!(vec[0].count, 6);
    assert_eq!(vec[0].operation, DiffOperation::Insert);

    assert_eq!(vec[1].start, 1);
    assert_eq!(vec[1].count, 1);
    assert_eq!(vec[1].operation, DiffOperation::Update);
}

#[test]
fn update_add() {
    let _old = String::from("Ha#%o      xxxx");
    let _new = String::from("Hello world");
    let mut sd = StringDiff::new();
    let vec = sd.get_diff(&_old, &_new);

    println!("vec: {:?}", vec);

    assert_eq!(vec.len(), 3);

    assert_eq!(vec[0].start, 11);
    assert_eq!(vec[0].count, 4);
    assert_eq!(vec[0].operation, DiffOperation::Remove);

    assert_eq!(vec[1].start, 6);
    assert_eq!(vec[1].count, 5);
    assert_eq!(vec[1].operation, DiffOperation::Update);

    assert_eq!(vec[2].start, 1);
    assert_eq!(vec[2].count, 3);
    assert_eq!(vec[2].operation, DiffOperation::Update);
}

#[test]
fn remove_ch() {
    let _old = String::from("你好，世界");
    let _new = String::from("你好");
    let mut sd = StringDiff::new();
    let vec = sd.get_diff(&_old, &_new);

    assert_eq!(vec.len(), 1);
    assert_eq!(vec[0].start, 2);
    assert_eq!(vec[0].count, 3);
    assert_eq!(vec[0].operation, DiffOperation::Remove);
}

#[test]
fn update_arm() {
    let _old = String::from("դա կատարյալ է");
    let _new = String::from("դա կատարյալ  ");
    let mut sd = StringDiff::new();
    let vec = sd.get_diff(&_old, &_new);

    assert_eq!(vec.len(), 1);
    assert_eq!(vec.len(), 1);
    assert_eq!(vec[0].start, 12);
    assert_eq!(vec[0].count, 1);
    assert_eq!(vec[0].operation, DiffOperation::Update);
}

fn cell(start: usize, count: usize, operation: DiffOperation) -> DiffCell {
    DiffCell { start, count, operation }
}

#[test]
fn identical_texts_give_no_record() {
    let mut sd = StringDiff::new();
    for text in ["", "a", "Hello world", "你好，世界", "դա կատարյալ է", "  \t\n"] {
        assert_eq!(sd.get_diff(text, text), vec![]);
    }
}

#[test]
fn no_record_stands_for_no_change() {
    let mut sd = StringDiff::new();
    let pairs = [
        ("kitten", "sitting"),
        ("Hleol world", "Hello world"),
        ("abcdef", "fedcba"),
        ("aXbXc", "aYbYc"),
        ("", "x"),
        ("x", ""),
        ("flaw", "lawn"),
    ];
    for (a, b) in pairs {
        let res = sd.get_diff(a, b);
        assert!(!res.is_empty());
        for rec in res.iter() {
            assert_ne!(rec.operation, DiffOperation::Unchanged);
            assert!(rec.count >= 1);
        }
    }
}

#[test]
fn against_the_empty_text_one_whole_record() {
    let mut sd = StringDiff::new();
    assert_eq!(sd.get_diff("", "Hello"), vec![cell(0, 5, DiffOperation::Insert)]);
    assert_eq!(sd.get_diff("Hello", ""), vec![cell(0, 5, DiffOperation::Remove)]);
    assert_eq!(sd.get_diff("H", ""), vec![cell(0, 1, DiffOperation::Remove)]);
    assert_eq!(sd.get_diff("", "你好，世界"), vec![cell(0, 5, DiffOperation::Insert)]);
}

#[test]
fn length_gap_record_comes_first() {
    let mut sd = StringDiff::new();
    assert_eq!(
        sd.get_diff("Hallo", "Hello world"),
        vec![cell(5, 6, DiffOperation::Insert), cell(1, 1, DiffOperation::Update)]
    );
    assert_eq!(
        sd.get_diff("Hello world", "Hallo"),
        vec![cell(5, 6, DiffOperation::Remove), cell(1, 1, DiffOperation::Update)]
    );
    let res = sd.get_diff("xbcdefgh", "abc");
    assert_eq!(res[0], cell(3, 5, DiffOperation::Remove));
    assert_eq!(res[1], cell(0, 1, DiffOperation::Update));
}

#[test]
fn worked_examples() {
    let mut sd = StringDiff::new();
    assert_eq!(sd.get_diff("Hello world", "Hello world"), vec![]);
    assert_eq!(
        sd.get_diff("Hleol world", "Hello world"),
        vec![
            cell(4, 1, DiffOperation::Remove),
            cell(2, 1, DiffOperation::Update),
            cell(1, 1, DiffOperation::Insert),
        ]
    );
    assert_eq!(sd.get_diff("Hello world", "Hello wordl"), vec![cell(9, 2, DiffOperation::Update)]);
    assert_eq!(sd.get_diff("你好，世界", "你好"), vec![cell(2, 3, DiffOperation::Remove)]);
}

#[test]
fn codepoints_not_bytes() {
    let mut sd = StringDiff::new();
    // Each of these characters takes several bytes; offsets count characters.
    assert_eq!(sd.get_diff("你好世界", "你好地界"), vec![cell(2, 1, DiffOperation::Update)]);
    assert_eq!(sd.get_diff("դա", "դաա"), vec![cell(2, 1, DiffOperation::Insert)]);
    assert_eq!(sd.get_diff("é", "e"), vec![cell(0, 1, DiffOperation::Update)]);
}

#[test]
fn separate_runs_are_separate_records() {
    let mut sd = StringDiff::new();
    // Two substitutions with an unchanged character between them.
    assert_eq!(
        sd.get_diff("aXbYc", "aPbQc"),
        vec![cell(3, 1, DiffOperation::Update), cell(1, 1, DiffOperation::Update)]
    );
    // Adjacent substitutions form one run.
    assert_eq!(sd.get_diff("aXYc", "aPQc"), vec![cell(1, 2, DiffOperation::Update)]);
    // Everything substituted.
    assert_eq!(sd.get_diff("abc", "xyz"), vec![cell(0, 3, DiffOperation::Update)]);
}

#[test]
fn diagonal_wins_ties() {
    let mut sd = StringDiff::new();
    // "ab" against "ba": the last cell can be reached at cost 2 along the
    // diagonal or through a removal and an insertion; the diagonal is taken.
    assert_eq!(sd.get_diff("ab", "ba"), vec![cell(0, 2, DiffOperation::Update)]);
}

#[test]
fn engine_is_reusable_and_grows() {
    let mut sd = StringDiff::new();
    assert_eq!(sd.get_diff("abc", "abd"), vec![cell(2, 1, DiffOperation::Update)]);

    // Longer than the grids were first allocated for.
    let long_old: String = std::iter::repeat('a').take(600).collect();
    let mut long_new = long_old.clone();
    long_new.replace_range(599..600, "b");
    assert_eq!(sd.get_diff(&long_old, &long_new), vec![cell(599, 1, DiffOperation::Update)]);

    // Short again, on the grown grids.
    assert_eq!(sd.get_diff("abc", "abd"), vec![cell(2, 1, DiffOperation::Update)]);
    assert_eq!(
        sd.get_diff("Hleol world", "Hello world"),
        vec![
            cell(4, 1, DiffOperation::Remove),
            cell(2, 1, DiffOperation::Update),
            cell(1, 1, DiffOperation::Insert),
        ]
    );
    // A result does not depend on what the engine compared before.
    let mut fresh = StringDiff::new();
    assert_eq!(sd.get_diff("kitten", "sitting"), fresh.get_diff("kitten", "sitting"));
}

#[test]
fn can_compare_ordinary_texts() {
    assert!(StringDiff::can_compare("", ""));
    assert!(StringDiff::can_compare("Hello", "Hello world"));
    let long: String = std::iter::repeat('x').take(5000).collect();
    assert!(StringDiff::can_compare(&long, &long));
}

#[test]
fn default_operation_is_unchanged() {
    assert_eq!(DiffOperation::default(), DiffOperation::Unchanged);
}

#[test]
fn decoding_and_comparing_characters() {
    assert_eq!(chars_of("你好a"), vec!['你', '好', 'a']);
    assert_eq!(chars_of(""), Vec::<char>::new());
    assert!(same_chars(&chars_of("abc"), &chars_of("abc")));
    assert!(!same_chars(&chars_of("abc"), &chars_of("abd")));
    assert!(!same_chars(&chars_of("abc"), &chars_of("ab")));
    assert!(same_chars(&chars_of(""), &chars_of("")));
}
