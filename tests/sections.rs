use formatto::locale::{LocaleCategory, LocaleTable};
use formatto::options::{
    FormatOptions, HeadingGaps, OtherGaps, OtherOptions, PluginOptions, Preferences,
};
use formatto::parsing::get_sections;
use formatto::tokens::{HeadingLevel, MarkdownSection};

fn some(s: &str) -> Option<String> {
    Some(s.to_string())
}

fn example_locales() -> LocaleTable {
    let mut t = LocaleTable::new();
    t.insert(
        LocaleCategory::Parsing,
        "Failed to parse the document. [Line: {LINE_NUMBER}]".to_string(),
        "문서를 읽지 못했습니다. [줄: {LINE_NUMBER}]".to_string(),
    );
    t.insert(
        LocaleCategory::Parsing,
        "Failed to parse the document.".to_string(),
        "문서를 읽지 못했습니다.".to_string(),
    );
    t.insert(
        LocaleCategory::Formatting,
        "Failed to read options. Please make sure there is no option with an empty value."
            .to_string(),
        "옵션을 읽지 못했습니다. 값이 비어있는 옵션이 없는지 다시 확인해주세요.".to_string(),
    );
    t.insert(
        LocaleCategory::Formatting,
        "Failed to read options. Some of them are possibly not positive number values."
            .to_string(),
        "설정을 읽지 못했습니다. 양수가 아닌 값이 있을수도 있습니다.".to_string(),
    );
    t.insert(
        LocaleCategory::Formatting,
        "Failed to read option properties.".to_string(),
        "옵션 프로퍼티를 읽지 못했습니다.".to_string(),
    );
    t
}

fn example_preferences() -> Preferences {
    Preferences {
        options: PluginOptions {
            heading_gaps: HeadingGaps {
                before_top_level_headings: some("3"),
                before_first_sub_heading: some("1"),
                before_sub_headings: some("2"),
            },
            other_gaps: OtherGaps {
                after_properties: some("2"),
                before_contents: some("0"),
                before_contents_after_code_blocks: some("1"),
                before_code_blocks: some("1"),
                before_code_blocks_after_headings: some("0"),
            },
            format_options: FormatOptions {
                insert_newline: Some(false),
            },
            other_options: OtherOptions {
                notify_when_unchanged: Some(false),
                show_more_detailed_error_messages: Some(false),
            },
        },
        locales: example_locales(),
    }
}


fn sections(input: &str) -> Vec<MarkdownSection> {
    get_sections(input, &example_preferences()).unwrap()
}

fn top(s: &str) -> MarkdownSection {
    MarkdownSection::Heading(HeadingLevel::Top(s.to_string()))
}

fn first_sub(s: &str) -> MarkdownSection {
    MarkdownSection::Heading(HeadingLevel::FirstSub(s.to_string()))
}

fn sub(s: &str) -> MarkdownSection {
    MarkdownSection::Heading(HeadingLevel::Sub(s.to_string()))
}

fn content(s: &str) -> MarkdownSection {
    MarkdownSection::Content(s.to_string())
}

fn code(s: &str) -> MarkdownSection {
    MarkdownSection::Code(s.to_string())
}

const LOREM: &str = "Lorem Ipsum is simply dummy text of the printing and typesetting industry.";

const CODE_INPUT: &str = r#"## Heading 2
Lorem Ipsum is simply dummy text of the printing and typesetting industry.

#### Heading 4
```rust
fn main(
println!(\"Hello World\");
) {}
```"#;

fn code_expected() -> Vec<MarkdownSection> {
    vec![
        top("## Heading 2"),
        content(LOREM),
        first_sub("#### Heading 4"),
        code(
            r#"```rust
fn main(
println!(\"Hello World\");
) {}
```"#,
        ),
    ]
}

#[test]
fn code_blocks_1() {
    assert_eq!(sections(CODE_INPUT), code_expected());
}

#[test]
fn invalid_input_invalid_input_1() {
    let input = r#"```
code
SPACE```"#;
    assert!(get_sections(input, &example_preferences()).is_err());
}

#[test]
fn code_blocks_invalid_input_1() {
    let input = r#"```
code
SPACE```"#;
    assert!(get_sections(input, &example_preferences()).is_err());
}

const CONTENTS_ONLY: &str = r#"Lorem Ipsum is simply dummy text of the printing and typesetting industry.
Lorem Ipsum is simply dummy text of the printing and typesetting industry.
Lorem Ipsum is simply dummy text of the printing and typesetting industry."#;

#[test]
fn contents_only() {
    assert_eq!(sections(CONTENTS_ONLY), vec![content(CONTENTS_ONLY)]);
}

#[test]
fn contents_case_1() {
    assert_eq!(sections(CONTENTS_ONLY), vec![content(CONTENTS_ONLY)]);
}

const LINE_BREAK_INPUT: &str = r#"## Heading 2
Lorem Ipsum is simply dummy text of the printing and typesetting industry.

#### Heading 4
Lorem Ipsum is simply dummy text of the printing and typesetting industry.

\
Lorem Ipsum is simply dummy text of the printing and typesetting industry.
"#;

fn line_break_expected() -> Vec<MarkdownSection> {
    vec![
        top("## Heading 2"),
        content(LOREM),
        first_sub("#### Heading 4"),
        content(
            r#"Lorem Ipsum is simply dummy text of the printing and typesetting industry.

\
Lorem Ipsum is simply dummy text of the printing and typesetting industry."#,
        ),
    ]
}

#[test]
fn contents_with_line_break_syntax() {
    assert_eq!(sections(LINE_BREAK_INPUT), line_break_expected());
}

#[test]
fn contents_case_2() {
    assert_eq!(sections(LINE_BREAK_INPUT), line_break_expected());
}

#[test]
fn general_empty_input() {
    let expected: Vec<MarkdownSection> = Vec::new();
    assert_eq!(sections(""), expected);
}

#[test]
fn tests_empty_input() {
    let expected: Vec<MarkdownSection> = Vec::new();
    assert_eq!(sections(""), expected);
}

const ALT_1: &str = r#"Heading 1
====

### Heading 3
#### Heading 4"#;

fn alt_1_expected() -> Vec<MarkdownSection> {
    vec![top("Heading 1\n===="), first_sub("### Heading 3"), first_sub("#### Heading 4")]
}

#[test]
fn alternate_headings_case_1() {
    assert_eq!(sections(ALT_1), alt_1_expected());
}

#[test]
fn alternative_headings_alternative_headings_1() {
    assert_eq!(sections(ALT_1), alt_1_expected());
}

const ALT_2: &str = r#"Heading 1
====

Heading 2
-------

### Heading 3
#### Heading 4
# Heading 1
## Heading 2
"#;

fn alt_2_expected() -> Vec<MarkdownSection> {
    vec![
        top("Heading 1\n===="),
        first_sub("Heading 2\n-------"),
        first_sub("### Heading 3"),
        first_sub("#### Heading 4"),
        top("# Heading 1"),
        first_sub("## Heading 2"),
    ]
}

#[test]
fn alternate_headings_case_2() {
    assert_eq!(sections(ALT_2), alt_2_expected());
}

#[test]
fn alternative_headings_2() {
    assert_eq!(sections(ALT_2), alt_2_expected());
}

const ALT_3: &str = r#"## Heading 2

### Heading 3
```ts
console.log("Hello World");
```

aaabbbccc

Content
===
Content
---


## Heading 2


## Heading 2


## Heading 2"#;

fn alt_3_expected() -> Vec<MarkdownSection> {
    // The second "Content" stands under an underline, not at a paragraph
    // boundary, so it and its "---" stay prose.
    vec![
        first_sub("## Heading 2"),
        first_sub("### Heading 3"),
        code("```ts\nconsole.log(\"Hello World\");\n```"),
        content("aaabbbccc"),
        top("Content\n==="),
        content("Content\n---"),
        first_sub("## Heading 2"),
        sub("## Heading 2"),
        sub("## Heading 2"),
    ]
}

#[test]
fn alternate_headings_case_3() {
    assert_eq!(sections(ALT_3), alt_3_expected());
}

#[test]
fn alternative_headings_edge_case_1() {
    assert_eq!(sections(ALT_3), alt_3_expected());
}

const EDGE_1: &str = r#"## Heading 2
aabbcc
===
Content
---

# Heading 1
"#;

fn edge_1_expected() -> Vec<MarkdownSection> {
    // "aabbcc" follows an ATX heading and is a title; "Content" follows an
    // underline and is prose.
    vec![
        first_sub("## Heading 2"),
        top("aabbcc\n==="),
        content("Content\n---"),
        top("# Heading 1"),
    ]
}

#[test]
fn edge_case_1() {
    assert_eq!(sections(EDGE_1), edge_1_expected());
}

#[test]
fn alternative_headings_edge_case_2() {
    assert_eq!(sections(EDGE_1), edge_1_expected());
}

const EDGE_2: &str = r#"## Heading 2
INVALID
INVALID
===
Content
---
"#;

fn edge_2_expected() -> Vec<MarkdownSection> {
    vec![top("## Heading 2"), content("INVALID\nINVALID\n===\nContent\n---")]
}

#[test]
fn edge_case_2() {
    assert_eq!(sections(EDGE_2), edge_2_expected());
}

#[test]
fn alternative_headings_edge_case_3() {
    assert_eq!(sections(EDGE_2), edge_2_expected());
}

#[test]
fn edge_case_3() {
    let input = r#"## Heading 2

### Heading 3
```ts
console.log("Hello World");
```

aaabbbccc
Content
===
Content
---
--–
Content
===



## Heading 2



## Heading 2



## Heading 2
"#;
    let expected = vec![
        top("## Heading 2"),
        first_sub("### Heading 3"),
        code("```ts\nconsole.log(\"Hello World\");\n```"),
        content("aaabbbccc\nContent\n===\nContent\n---\n--–\nContent\n==="),
        top("## Heading 2"),
        top("## Heading 2"),
        top("## Heading 2"),
    ];
    assert_eq!(sections(input), expected);
}

const PROPS_WITH_SECTIONS: &str = r#"---
aliases:
- Test
---

## Heading 2
Lorem Ipsum is simply dummy text of the printing and typesetting industry.

### Heading 3

Lorem Ipsum is simply dummy text of the printing and typesetting industry.

#### Heading 4
## Heading 2"#;

fn props_with_sections_expected() -> Vec<MarkdownSection> {
    vec![
        MarkdownSection::Property("---\naliases:\n- Test\n---".to_string()),
        top("## Heading 2"),
        content(LOREM),
        first_sub("### Heading 3"),
        content(LOREM),
        first_sub("#### Heading 4"),
        top("## Heading 2"),
    ]
}

#[test]
fn properties_properties_1() {
    assert_eq!(sections(PROPS_WITH_SECTIONS), props_with_sections_expected());
}

#[test]
fn properties_properties_2() {
    let input = "---\naliases:\n- Test\n---\n";
    assert_eq!(
        sections(input),
        vec![MarkdownSection::Property("---\naliases:\n- Test\n---".to_string())]
    );
}

#[test]
fn properties_invalid_input_1() {
    let input = r#"---INVALID
aliases:
---
- Test
---INVALID
---INVALID
---INVALID

## Heading 2
Lorem Ipsum is simply dummy text of the printing and typesetting industry.

### Heading 3

Lorem Ipsum is simply dummy text of the printing and typesetting industry.

#### Heading 4
## Heading 2"#;
    // No line is a lone "---" at the start, so there is no front matter to
    // leave open: the lines before the first heading are prose.
    let expected = vec![
        content("---INVALID\naliases:\n---\n- Test\n---INVALID\n---INVALID\n---INVALID"),
        top("## Heading 2"),
        content(LOREM),
        first_sub("### Heading 3"),
        content(LOREM),
        first_sub("#### Heading 4"),
        top("## Heading 2"),
    ];
    assert_eq!(sections(input), expected);
}

#[test]
fn same_level_hash_headings() {
    let input = r#"## Heading 2
Lorem Ipsum is simply dummy text of the printing and typesetting industry.
## Heading 2"#;
    assert_eq!(sections(input), vec![top("## Heading 2"), content(LOREM), top("## Heading 2")]);
}

#[test]
fn no_subheadings() {
    let input = r#"## Heading 2
Lorem Ipsum is simply dummy text of the printing and typesetting industry.
## Heading 2"#;
    assert_eq!(sections(input), vec![top("## Heading 2"), content(LOREM), top("## Heading 2")]);
}

#[test]
fn invalid_hash_headings() {
    let input = r#"##Heading 2
###Heading 3
####Heading 4"#;
    assert_eq!(sections(input), vec![content(input)]);
}

#[test]
fn hash_headings_only_1() {
    let input = r#"## Heading 2
## Heading 2
## Heading 2"#;
    assert_eq!(
        sections(input),
        vec![top("## Heading 2"), top("## Heading 2"), top("## Heading 2")]
    );
}

#[test]
fn hash_headings_only_2() {
    let input = r#"## Heading 2
### Heading 3
#### Heading 4"#;
    assert_eq!(
        sections(input),
        vec![top("## Heading 2"), first_sub("### Heading 3"), first_sub("#### Heading 4")]
    );
}

#[test]
fn sub_hash_headings() {
    let input = r#"## Heading 2
Lorem Ipsum is simply dummy text of the printing and typesetting industry.

### Heading 3
Lorem Ipsum is simply dummy text of the printing and typesetting industry.

### Heading 3
Lorem Ipsum is simply dummy text of the printing and typesetting industry."#;
    let expected = vec![
        top("## Heading 2"),
        content(LOREM),
        first_sub("### Heading 3"),
        content(LOREM),
        sub("### Heading 3"),
        content(LOREM),
    ];
    assert_eq!(sections(input), expected);
}

const RANDOM_BREAKS: &str = r#"## Heading 2
Lorem Ipsum is simply dummy text of the printing and typesetting industry.

### Heading 3

Lorem Ipsum is simply dummy text of the printing and typesetting industry.

#### Heading 4
## Heading 2"#;

fn random_breaks_expected() -> Vec<MarkdownSection> {
    vec![
        top("## Heading 2"),
        content(LOREM),
        first_sub("### Heading 3"),
        content(LOREM),
        first_sub("#### Heading 4"),
        top("## Heading 2"),
    ]
}

#[test]
fn hash_headings_random_line_breaks() {
    assert_eq!(sections(RANDOM_BREAKS), random_breaks_expected());
}

#[test]
fn tests_random_line_breaks() {
    assert_eq!(sections(RANDOM_BREAKS), random_breaks_expected());
}

#[test]
fn two_levels_of_hash_headings() {
    let input = r#"## Heading 2
Lorem Ipsum is simply dummy text of the printing and typesetting industry.
### Heading 3
Lorem Ipsum is simply dummy text of the printing and typesetting industry."#;
    let expected = vec![top("## Heading 2"), content(LOREM), first_sub("### Heading 3"), content(LOREM)];
    assert_eq!(sections(input), expected);
}

#[test]
fn single_section() {
    let input = r#"## Heading 2
Lorem Ipsum is simply dummy text of the printing and typesetting industry.
### Subheading
Lorem Ipsum is simply dummy text of the printing and typesetting industry."#;
    let expected = vec![top("## Heading 2"), content(LOREM), first_sub("### Subheading"), content(LOREM)];
    assert_eq!(sections(input), expected);
}

#[test]
fn hash_headings_without_title_names() {
    let input = "#\n##\n##\n##\n##\n###\n###\n####\n####\n##\n#\n";
    let expected = vec![
        top("#"),
        first_sub("##"),
        sub("##"),
        sub("##"),
        sub("##"),
        first_sub("###"),
        sub("###"),
        first_sub("####"),
        sub("####"),
        sub("##"),
        top("#"),
    ];
    assert_eq!(sections(input), expected);
}

#[test]
fn code_block() {
    let input = r#"## Heading 2
Lorem Ipsum is simply dummy text of the printing and typesetting industry.

#### Heading 4
```rust
fn main(
    println!(\"Hello World\");
) {}
```"#;
    let expected = vec![
        top("## Heading 2"),
        content(LOREM),
        // Deeper than the heading before it.
        first_sub("#### Heading 4"),
        code(
            r#"```rust
fn main(
    println!(\"Hello World\");
) {}
```"#,
        ),
    ];
    assert_eq!(sections(input), expected);
}
