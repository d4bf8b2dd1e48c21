use rustywind::extract::{find_spans, Span};
use rustywind::order::{rank_of, ORDER_LEN};
use rustywind::sort::sort_classes;
use rustywind::tokens::tokenize;
use rustywind::{has_classes, sort_file_contents, Options};

fn chars(s: &str) -> Vec<char> {
    s.chars().collect()
}

fn sorted(s: &str, allow_duplicates: bool) -> String {
    sort_file_contents(s, &Options::new(allow_duplicates))
}

fn sorted_list(s: &str, remove_dups: bool) -> String {
    sort_classes(&chars(s), remove_dups).into_iter().collect()
}

#[test]
fn sorts_one_class_list() {
    assert_eq!(
        sorted("<div class=\"pt-2 flex text-center\"></div>", false),
        "<div class=\"flex pt-2 text-center\"></div>"
    );
}

#[test]
fn sorts_by_table_order() {
    assert_eq!(sorted_list("uppercase flex text-center", false), "flex text-center uppercase");
}

#[test]
fn removes_duplicates() {
    assert_eq!(sorted("<p class=\"flex flex p-4\">", false), "<p class=\"flex p-4\">");
    assert_eq!(sorted_list("flex flex p-4", true), "flex p-4");
}

#[test]
fn keeps_duplicates_when_allowed() {
    assert_eq!(sorted("<p class=\"flex flex p-4\">", true), "<p class=\"flex flex p-4\">");
    assert_eq!(sorted_list("p-4 flex flex", false), "flex flex p-4");
}

#[test]
fn duplicate_removal_keeps_first_of_each() {
    assert_eq!(sorted_list("zeta flex alpha zeta flex", true), "flex zeta alpha");
    assert_eq!(sorted_list("zeta flex alpha zeta flex", false), "flex flex zeta alpha zeta");
}

#[test]
fn content_without_class_attribute_is_unchanged() {
    let text = "<div id=\"main\" title=\"flex p-4\">hello</div>\n";
    assert!(!has_classes(text));
    assert_eq!(sorted(text, false), text);
    assert!(!has_classes(""));
    assert_eq!(sorted("", false), "");
}

#[test]
fn two_attributes_sorted_independently() {
    let text = "<a class=\"p-4 flex\">\n  <b id='x'>  text  </b>\n</a><i class='text-center block'></i>";
    let want = "<a class=\"flex p-4\">\n  <b id='x'>  text  </b>\n</a><i class='block text-center'></i>";
    assert!(has_classes(text));
    assert_eq!(sorted(text, false), want);
    let spans = find_spans(&chars(text));
    assert_eq!(spans, vec![Span { start: 10, end: 18 }, Span { start: 60, end: 77 }]);
}

#[test]
fn sorting_twice_changes_nothing() {
    let text = "<a class=\"p-4 zeta md:flex flex  p-4\"> x <b className='text-center w-[3px] z-10'>";
    let once = sorted(text, true);
    assert_eq!(sorted(&once, true), once);
    let once = sorted(text, false);
    assert_eq!(sorted(&once, false), once);
    assert_eq!(once, "<a class=\"md:flex flex p-4 zeta\"> x <b className='z-10 w-[3px] text-center'>");
}

#[test]
fn unknown_classes_last_in_input_order() {
    assert_eq!(sorted_list("zeta p-4 alpha flex beta", false), "flex p-4 zeta alpha beta");
}

#[test]
fn variant_prefixes_rank_by_base() {
    assert_eq!(
        sorted_list("hover:bg-red-500 p-4 md:flex flex", false),
        "md:flex flex hover:bg-red-500 p-4"
    );
    assert_eq!(rank_of(&chars("md:hover:flex")), rank_of(&chars("flex")));
    assert_eq!(rank_of(&chars("unknown:flex")), ORDER_LEN);
}

#[test]
fn arbitrary_values_rank_by_base() {
    assert_eq!(sorted_list("text-center w-[10px]", false), "w-[10px] text-center");
    assert_eq!(rank_of(&chars("w-[10px]")), rank_of(&chars("w-4")));
}

#[test]
fn unknown_class_gets_last_rank() {
    assert_eq!(rank_of(&chars("my-4")), rank_of(&chars("my-auto")));
    assert_eq!(rank_of(&chars("widget")), ORDER_LEN);
    assert!(rank_of(&chars("flex")) < ORDER_LEN);
}

#[test]
fn class_name_and_single_quotes() {
    assert_eq!(sorted("<div className='p-4 flex'/>", false), "<div className='flex p-4'/>");
    assert_eq!(sorted("<div class = \"p-4 flex\"/>", false), "<div class = \"flex p-4\"/>");
}

#[test]
fn whitespace_is_normalized() {
    assert_eq!(sorted("<i class=\"  p-4 \n\t flex \">", false), "<i class=\"flex p-4\">");
    assert_eq!(sorted("<i class=\"   \">", false), "<i class=\"\">");
}

#[test]
fn malformed_attributes_are_left_alone() {
    for text in [
        "<i class=\"p-4 flex'>",
        "<i class=\"p-4 flex>",
        "<i subclass=\"p-4 flex\">",
        "<i class=\"\">",
        "<i class=\"p-4 {x} flex\">",
    ] {
        assert!(!has_classes(text), "{}", text);
        assert_eq!(sorted(text, false), text);
    }
}

#[test]
fn tokenizer_splits_on_whitespace_runs() {
    let toks = tokenize(&chars("  a  b\n\tc "));
    assert_eq!(toks, vec![vec!['a'], vec!['b'], vec!['c']]);
    assert!(tokenize(&chars("   ")).is_empty());
}

#[test]
fn class_lists_inside_comments_are_left_alone() {
    let text = "<!-- <i class='p-4 flex'></i> --><p class='p-4 flex'></p>";
    let want = "<!-- <i class='p-4 flex'></i> --><p class='flex p-4'></p>";
    assert_eq!(sorted(text, false), want);
    assert_eq!(sorted(text, true), want);
    assert_eq!(find_spans(&chars(text)), vec![Span { start: 43, end: 51 }]);
    let only_comment = "<!-- <i class='p-4 flex'></i> -->";
    assert!(!has_classes(only_comment));
    assert_eq!(sorted(only_comment, false), only_comment);
    let unclosed = "<p class='p-4 flex'></p><!-- <i class='p-4 flex'>";
    assert_eq!(sorted(unclosed, false), "<p class='flex p-4'></p><!-- <i class='p-4 flex'>");
}

#[test]
fn class_must_begin_an_attribute_name() {
    for text in ["<i data-class=\"p-4 flex\">", "<i x:class='p-4 flex'>", "class='p-4 flex'"] {
        assert!(!has_classes(text), "{}", text);
        assert_eq!(sorted(text, false), text);
    }
    assert_eq!(sorted("<i\n  class='p-4 flex'>", false), "<i\n  class='flex p-4'>");
}
