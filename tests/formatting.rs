use formatto::formatting::get_formatted_string;
use formatto::locale::{LocaleCategory, LocaleTable};
use formatto::options::{
    FormatOptions, HeadingGaps, OtherGaps, OtherOptions, PluginOptions, Preferences,
};
use formatto::parsing::get_sections;
use formatto::tokens::{HeadingLevel, MarkdownSection};

fn some(s: &str) -> Option<String> {
    Some(s.to_string())
}

fn example_locales() -> LocaleTable {
    let mut t = LocaleTable::new();
    t.insert(
        LocaleCategory::Parsing,
        "Failed to parse the document. [Line: {LINE_NUMBER}]".to_string(),
        "문서를 읽지 못했습니다. [줄: {LINE_NUMBER}]".to_string(),
    );
    t.insert(
        LocaleCategory::Parsing,
        "Failed to parse the document.".to_string(),
        "문서를 읽지 못했습니다.".to_string(),
    );
    t.insert(
        LocaleCategory::Formatting,
        "Failed to read options. Please make sure there is no option with an empty value."
            .to_string(),
        "옵션을 읽지 못했습니다. 값이 비어있는 옵션이 없는지 다시 확인해주세요.".to_string(),
    );
    t.insert(
        LocaleCategory::Formatting,
        "Failed to read options. Some of them are possibly not positive number values."
            .to_string(),
        "설정을 읽지 못했습니다. 양수가 아닌 값이 있을수도 있습니다.".to_string(),
    );
    t.insert(
        LocaleCategory::Formatting,
        "Failed to read option properties.".to_string(),
        "옵션 프로퍼티를 읽지 못했습니다.".to_string(),
    );
    t
}

fn example_preferences() -> Preferences {
    Preferences {
        options: PluginOptions {
            heading_gaps: HeadingGaps {
                before_top_level_headings: some("3"),
                before_first_sub_heading: some("1"),
                before_sub_headings: some("2"),
            },
            other_gaps: OtherGaps {
                after_properties: some("2"),
                before_contents: some("0"),
                before_contents_after_code_blocks: some("1"),
                before_code_blocks: some("1"),
                before_code_blocks_after_headings: some("0"),
            },
            format_options: FormatOptions {
                insert_newline: Some(false),
            },
            other_options: OtherOptions {
                notify_when_unchanged: Some(false),
                show_more_detailed_error_messages: Some(false),
            },
        },
        locales: example_locales(),
    }
}

fn format(input: &str) -> String {
    let p = example_preferences();
    let sections = get_sections(input, &p).unwrap();
    get_formatted_string(sections, &p).unwrap()
}

#[test]
fn formatting_alternative_headings_1() {
    let input = r#"## Heading 2

### heading 3
```ts
console.log("Hello World");
```

Heading 1
==="#;
    let expected_output = r#"## Heading 2

### heading 3
```ts
console.log("Hello World");
```



Heading 1
==="#;
    assert_eq!(format(input), expected_output);
}

#[test]
fn multiple_headings() {
    let input = r#"## Heading 2
### Heading 3
#### Heading 4"#;
    let expected_output = r#"## Heading 2

### Heading 3

#### Heading 4"#;
    assert_eq!(format(input), expected_output);
}

#[test]
fn non_headings() {
    let input = r#"##Heading 2
###Heading 3
####Heading 4"#;
    let expected_output = r#"##Heading 2
###Heading 3
####Heading 4"#;
    assert_eq!(format(input), expected_output);
}

const PROPERTIES_INPUT: &str = r#"---
aliases:
    - Test
---

## Heading 2
Lorem Ipsum is simply dummy text of the printing and typesetting industry.

### Heading 3

Lorem Ipsum is simply dummy text of the printing and typesetting industry.

#### Heading 4
## Heading 2"#;

const PROPERTIES_OUTPUT: &str = r#"---
aliases:
    - Test
---


## Heading 2
Lorem Ipsum is simply dummy text of the printing and typesetting industry.

### Heading 3
Lorem Ipsum is simply dummy text of the printing and typesetting industry.

#### Heading 4



## Heading 2"#;

#[test]
fn formatting_properties_1() {
    assert_eq!(format(PROPERTIES_INPUT), PROPERTIES_OUTPUT);
}

#[test]
fn formatting_properties_2() {
    let input = r#"---
aliases:
  - Test
---"#;
    let expected_output = r#"---
aliases:
  - Test
---"#;
    assert_eq!(format(input), expected_output);
}

const CODE_INPUT: &str = r#"## Heading 2
Lorem Ipsum is simply dummy text of the printing and typesetting industry.

#### Heading 4
```rust
fn main(
    println!(\"Hello World\");
) {}
```"#;

const CODE_OUTPUT: &str = r#"## Heading 2
Lorem Ipsum is simply dummy text of the printing and typesetting industry.

#### Heading 4
```rust
fn main(
    println!(\"Hello World\");
) {}
```"#;

#[test]
fn code_blocks() {
    assert_eq!(format(CODE_INPUT), CODE_OUTPUT);
}

#[test]
fn code_blocks_case_1() {
    assert_eq!(format(CODE_INPUT), CODE_OUTPUT);

    let input = r#"## Heading 2
Lorem Ipsum is simply dummy text of the printing and typesetting industry.

#### Heading 4
```rust
fn main(
println!(\"Hello World\");
) {}
```"#;
    let expected_output = vec![
        MarkdownSection::Heading(HeadingLevel::Top("## Heading 2".to_string())),
        MarkdownSection::Content(
            "Lorem Ipsum is simply dummy text of the printing and typesetting industry."
                .to_string(),
        ),
        MarkdownSection::Heading(HeadingLevel::FirstSub("#### Heading 4".to_string())),
        MarkdownSection::Code(
            r#"```rust
fn main(
println!(\"Hello World\");
) {}
```"#
                .to_string(),
        ),
    ];
    assert_eq!(get_sections(input, &example_preferences()).unwrap(), expected_output);
}

#[test]
fn code_blocks_case_2() {
    let input = r#"## Heading 2

```rust
fn main(
    println!(\"Hello World\");
) {}
```


Lorem Ipsum is simply dummy text of the printing and typesetting industry.
"#;
    let expected_output = r#"## Heading 2
```rust
fn main(
    println!(\"Hello World\");
) {}
```

Lorem Ipsum is simply dummy text of the printing and typesetting industry."#;
    assert_eq!(format(input), expected_output);
}

#[test]
fn alternative_headings_case_1() {
    let input = r#"## Heading 2

### heading 3
```ts
console.log("Hello World");
```

Heading 1
==="#;
    let expected_output = r#"## Heading 2

### heading 3
```ts
console.log("Hello World");
```



Heading 1
==="#;
    assert_eq!(format(input), expected_output);
}

#[test]
fn hash_headings_case_1() {
    let input = r#"## Heading 2
### Heading 3
#### Heading 4"#;
    let expected_output = r#"## Heading 2

### Heading 3

#### Heading 4"#;
    assert_eq!(format(input), expected_output);
}

#[test]
fn hash_headings_invalid_input_1() {
    let input = r#"##Heading 2
###Heading 3
####Heading 4"#;
    let expected_output = r#"##Heading 2
###Heading 3
####Heading 4"#;
    assert_eq!(format(input), expected_output);
}

#[test]
fn properties_case_1() {
    assert_eq!(format(PROPERTIES_INPUT), PROPERTIES_OUTPUT);

    let input = "---\naliases:\n- Test\n---\n";
    let expected_output = vec![MarkdownSection::Property("---\naliases:\n- Test\n---".to_string())];
    assert_eq!(get_sections(input, &example_preferences()).unwrap(), expected_output);
}

#[test]
fn properties_case_2() {
    let input = r#"---
aliases:
  - Test
---"#;
    let expected_output = r#"---
aliases:
  - Test
---"#;
    assert_eq!(format(input), expected_output);

    let input = r#"---
aliases:
- Test
---

## Heading 2
Lorem Ipsum is simply dummy text of the printing and typesetting industry.

### Heading 3

Lorem Ipsum is simply dummy text of the printing and typesetting industry.

#### Heading 4
## Heading 2"#;
    let lorem = "Lorem Ipsum is simply dummy text of the printing and typesetting industry.";
    let expected_output = vec![
        MarkdownSection::Property("---\naliases:\n- Test\n---".to_string()),
        MarkdownSection::Heading(HeadingLevel::Top("## Heading 2".to_string())),
        MarkdownSection::Content(lorem.to_string()),
        MarkdownSection::Heading(HeadingLevel::FirstSub("### Heading 3".to_string())),
        MarkdownSection::Content(lorem.to_string()),
        MarkdownSection::Heading(HeadingLevel::FirstSub("#### Heading 4".to_string())),
        MarkdownSection::Heading(HeadingLevel::Top("## Heading 2".to_string())),
    ];
    assert_eq!(get_sections(input, &example_preferences()).unwrap(), expected_output);
}
