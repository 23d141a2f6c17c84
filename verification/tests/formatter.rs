use harvcode::formatter::{append, append_block};

/// Format one file into a newly created buffer.
fn format(path: &str, content: &str) -> String {
    let mut output = String::new();
    append(&mut output, path, content);
    output
}

#[test]
fn formats_markdown_code_block() {
    let result = format("src/main.rs", "fn main() {}\n");

    assert_eq!(result, "```src/main.rs\nfn main() {}\n```\n\n");
}

#[test]
fn adds_missing_trailing_newline() {
    let result = format("src/main.rs", "fn main() {}");

    assert_eq!(result, "```src/main.rs\nfn main() {}\n```\n\n");
}

#[test]
fn keeps_existing_trailing_newline() {
    let result = format("src/main.rs", "fn main() {}\n");

    assert_eq!(result, "```src/main.rs\nfn main() {}\n```\n\n");
}

#[test]
fn appends_blank_line_after_each_code_block() {
    let result = format("src/main.rs", "fn main() {}\n");

    assert!(result.ends_with("```\n\n"));
}

#[test]
fn appends_multiple_files_to_the_same_buffer() {
    let mut output = String::new();

    append(&mut output, "src/main.rs", "fn main() {}\n");

    append(&mut output, "src/lib.rs", "pub fn run() {}\n");

    assert_eq!(
        output,
        [
            "```src/main.rs\n",
            "fn main() {}\n",
            "```\n\n",
            "```src/lib.rs\n",
            "pub fn run() {}\n",
            "```\n\n",
        ]
        .concat()
    );
}

#[test]
fn removes_leading_current_directory_component() {
    let result = format("./src/main.rs", "fn main() {}\n");

    assert_eq!(result, "```src/main.rs\nfn main() {}\n```\n\n");
}

#[test]
fn empty_content_gets_a_line_of_its_own() {
    let result = format("empty.txt", "");

    assert_eq!(result, "```empty.txt\n\n```\n\n");
}

#[test]
fn only_a_leading_current_directory_component_is_removed() {
    assert_eq!(format(".env", "x\n"), "```.env\nx\n```\n\n");
    assert_eq!(format("src/./main.rs", "x\n"), "```src/./main.rs\nx\n```\n\n");
}

#[test]
fn append_block_uses_the_given_display_text() {
    let mut output = String::from("head\n");
    append_block(&mut output, "./kept", "body");
    assert_eq!(output, "head\n```./kept\nbody\n```\n\n");
}
