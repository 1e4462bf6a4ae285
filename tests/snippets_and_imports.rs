use rustsnippetsutils::imports::{get_imports, get_static_imports, import_catalog, suggest_line};
use rustsnippetsutils::snippets::{argument_count_from_indices, gen_init, get_last_read_argument};

#[test]
fn init_block_for_names() {
    assert_eq!(
        gen_init("a, b"),
        "    self._a = a\n        self._b = b\n    "
    );
    assert_eq!(gen_init(""), "    self._ = \n    ");
}

#[test]
fn last_read_argument() {
    assert_eq!(get_last_read_argument("x = sys.argv[3]"), Some(4));
    assert_eq!(get_last_read_argument("a = argv[2]; b = argv[7]"), Some(8));
    assert_eq!(get_last_read_argument("a = argv[2] + argv[5]"), Some(6));
    assert_eq!(get_last_read_argument("a = argv[5] + argv[2]"), Some(6));
    assert_eq!(get_last_read_argument("no arguments here"), Some(1));
    assert_eq!(get_last_read_argument("argv[99999999999]"), None);
}

#[test]
fn argument_count_of_indices() {
    let of = |v: &[&str]| v.iter().map(|s| s.to_string()).collect::<Vec<String>>();
    assert_eq!(argument_count_from_indices(&of(&[])), Some(1));
    assert_eq!(argument_count_from_indices(&of(&["0"])), Some(1));
    assert_eq!(argument_count_from_indices(&of(&["3", "12", "4"])), Some(13));
    assert_eq!(argument_count_from_indices(&of(&["2147483646"])), Some(2147483647));
    assert_eq!(argument_count_from_indices(&of(&["2147483647"])), None);
    assert_eq!(argument_count_from_indices(&of(&["1", "1a"])), None);
}

#[test]
fn import_suggestions() {
    assert_eq!(get_imports("numpy"), "import numpy as np");
    assert_eq!(get_static_imports("Counter"), "from collections import Counter");
}

#[test]
fn suggestion_over_no_choices_is_empty() {
    assert_eq!(suggest_line("np", &Vec::new(), "import"), "");
    assert_eq!(import_catalog().len(), 19);
}
