use formatto::headings::{
    get_alternate_heading_level, get_top_heading_level, get_valid_alternate_heading_level,
    validate_alternate_sub_heading, validate_alternate_top_heading, validate_hash_heading,
    validate_previous_alternate_headings, validate_sub_hash_heading, validate_top_hash_heading,
};

fn lines(s: &str) -> Vec<&str> {
    s.split('\n').collect()
}

#[test]
fn heading_1() {
    let output = get_alternate_heading_level("===").unwrap();
    let expected_out: usize = 1;
    assert_eq!(output, expected_out);
}

#[test]
fn heading_2() {
    let output = get_alternate_heading_level("---").unwrap();
    let expected_out: usize = 2;
    assert_eq!(output, expected_out);
}

#[test]
fn get_valid_alternative_top_heading_level_case_1() {
    let input = lines("## Heading 2\n## Heading 2\n## Heading 2\n\nHeading 1\n===");
    assert_eq!(get_valid_alternate_heading_level(&input, 5).unwrap(), 1);
}

#[test]
fn get_valid_alternative_top_heading_level_case_2() {
    let input = lines("## Heading 2\n## Heading 2\n## Heading 2\n\nHeading 2\n---");
    assert_eq!(get_valid_alternate_heading_level(&input, 5).unwrap(), 2);
}

#[test]
fn get_valid_alternative_top_heading_level_case_3() {
    let input = lines("## Heading 2\n## Heading 2\n## Heading 2\n\nHeading 1\n===\nHeading 2\n---");
    assert_eq!(get_valid_alternate_heading_level(&input, 5).unwrap(), 1);
}

#[test]
fn get_valid_alternative_top_heading_level_case_4() {
    let input = lines("## Heading 2\n# Heading 1\n### Heading 3\n\nHeading 2\n---");
    assert_eq!(get_valid_alternate_heading_level(&input, 5).unwrap(), 2);
}

#[test]
fn validate_previous_alternative_headings_case_1() {
    let input = lines(
        r#"## Heading 2

### Heading 3
```ts
console.log("Hello World");
```

Content
===
Content
---
Content
==="#,
    );
    // The title "Content" stands under the underline "---", not at a
    // paragraph boundary.
    assert_eq!(validate_previous_alternate_headings(&input, 12), false);
}

#[test]
fn validate_previous_alternative_headings_case_2() {
    let input = lines("Heading 1\n===\nHeading 2\n---\n\nContent");
    assert_eq!(validate_previous_alternate_headings(&input, 1), true);
}

#[test]
fn invalid_syntax_1() {
    let input = lines(
        r#"## Heading 2

### Heading 3
```ts
console.log("Hello World");
```

aaabbbccc
Content
===
Content
---
Content
==="#,
    );
    assert_eq!(validate_previous_alternate_headings(&input, 12), false);
}

#[test]
fn get_top_heading_level_case_1() {
    let input = lines("## Heading 2\n## Heading 2\n## Heading 2");
    assert_eq!(get_top_heading_level(&input).unwrap(), 2);
}

#[test]
fn get_top_heading_level_case_2() {
    let input =
        lines("## Heading 2\n## Heading 2\n## Heading 2\n\nHeading 1\n===\n\nHeading 2\n---\n");
    assert_eq!(get_top_heading_level(&input).unwrap(), 1);
}

#[test]
fn get_top_heading_level_case_3() {
    let input = lines(
        r#"````rust
```compile_fail
# struct MyNonSendType(std::rc::Rc<()>);
fn is_send<T: Send>() {}
is_send::<MyNonSendType>();
```
````

## Heading 2
"#,
    );
    // Every fence line flips the fence state, so the inner "```compile_fail"
    // closes it and "# struct ..." is read as a level-1 heading.
    assert_eq!(get_top_heading_level(&input).unwrap(), 1);
}

#[test]
fn get_top_heading_level_case_4() {
    let input = lines("````md\n```language-name\n// code\n```\n````\n\n## Heading 2\n");
    assert_eq!(get_top_heading_level(&input).unwrap(), 2);
}

#[test]
fn get_top_heading_level_invalid_input_1() {
    let input =
        lines("## Heading 2\n## Heading 2\n## Heading 2\n\n===\nINVALID\n\n---\nINVALID\n");
    assert_eq!(get_top_heading_level(&input).unwrap(), 2);
}

#[test]
fn invalid_input_2() {
    let input = lines(
        "## Heading 2\n## Heading 2\n## Heading 2\n\nINVALID\n====\nINVALID\n\nINVALID\n---\nINVALID\n",
    );
    assert_eq!(get_top_heading_level(&input).unwrap(), 1);
}

#[test]
fn only_hash_heading() {
    let input = lines("## Heading 2\n## Heading 2\n## Heading 2");
    assert_eq!(get_top_heading_level(&input).unwrap(), 2);
}

#[test]
fn hash_headings_and_alternative_headings() {
    let input =
        lines("## Heading 2\n## Heading 2\n## Heading 2\n\nHeading1\n====\n\nHeading2\n---\n");
    assert_eq!(get_top_heading_level(&input).unwrap(), 1);
}

#[test]
fn invalid_alternative_headings_1() {
    let input =
        lines("## Heading 2\n## Heading 2\n## Heading 2\n\n====\nINVALID\n\n---\nINVALID\n");
    assert_eq!(get_top_heading_level(&input).unwrap(), 2);
}

#[test]
fn invalid_alternative_headings_2() {
    let input = lines(
        "## Heading 2\n## Heading 2\n## Heading 2\n\nINVALID\n====\nINVALID\n\nINVALID\n---\nINVALID\n",
    );
    assert_eq!(get_top_heading_level(&input).unwrap(), 1);
}

const CODE_DOC: &str = r#"## Heading 2
Lorem Ipsum is simply dummy text of the printing and typesetting industry.

#### Heading 4
```rust
fn main(
    println!(\"Hello World\");
) {}
```"#;

#[test]
fn top_heading_at_start_of_input() {
    let input = lines(CODE_DOC);
    assert_eq!(get_top_heading_level(&input), Some(2));
}

#[test]
fn top_heading_in_middle_of_input() {
    let doc = format!("#### Heading 4\n        \n{}", CODE_DOC);
    let input = lines(&doc);
    assert_eq!(get_top_heading_level(&input), Some(2));
}

#[test]
fn top_heading_at_end_of_input() {
    let doc = format!(
        "#### Heading 4\n        \n{}\n\n# Heading 1\nLorem Ipsum is simply dummy text of the printing and typesetting industry.",
        CODE_DOC
    );
    let input = lines(&doc);
    assert_eq!(get_top_heading_level(&input), Some(1));
}

#[test]
fn no_heading_gives_no_top_level() {
    let input = lines("just prose\n```\n# not a heading\n```");
    assert_eq!(get_top_heading_level(&input), None);
}

#[test]
fn hash_heading_validation() {
    assert!(validate_hash_heading("## Title"));
    assert!(validate_hash_heading("###"));
    assert!(!validate_hash_heading("##Title"));
    assert!(!validate_hash_heading("Title # x"));
    assert!(!validate_hash_heading(""));
}

#[test]
fn top_hash_heading_validation() {
    assert!(validate_top_hash_heading("## Title", "##"));
    assert!(!validate_top_hash_heading("### Title", "##"));
    assert!(!validate_top_hash_heading("# Title", "##"));
}

#[test]
fn sub_hash_heading_validation() {
    assert!(validate_sub_hash_heading("### Title", false));
    assert!(validate_sub_hash_heading("###", true));
    assert!(!validate_sub_hash_heading("###", false));
}

#[test]
fn alternate_level_rejects_mixed_runs() {
    assert_eq!(get_alternate_heading_level("=-="), None);
    assert_eq!(get_alternate_heading_level(""), None);
    assert_eq!(get_alternate_heading_level("--- x"), None);
}

#[test]
fn alternate_top_and_sub_validation() {
    let input = lines("Title\n===\n\nOther\n---");
    assert!(validate_alternate_top_heading(&input, 1, 1));
    assert!(!validate_alternate_sub_heading(&input, 1, 1));
    assert!(validate_alternate_sub_heading(&input, 4, 1));
    assert!(!validate_alternate_top_heading(&input, 4, 1));
}

#[test]
fn underline_after_blank_or_run_is_no_heading() {
    let input = lines("Title\n\n===");
    assert_eq!(get_valid_alternate_heading_level(&input, 2), None);
    let input = lines("Title\n---\n---");
    assert_eq!(get_valid_alternate_heading_level(&input, 2), None);
    let input = lines("para\nTitle\n===");
    assert_eq!(get_valid_alternate_heading_level(&input, 2), None);
}
