use strip_codeblocks::strip_codeblocks;

#[test]
fn test_empty_string() {
    assert_eq!(strip_codeblocks(""), "");
}

#[test]
fn test_unterminated_fence() {
    // An opening fence with no later closing fence passes through unchanged.
    let input = "```\nno closing fence";
    assert_eq!(strip_codeblocks(input), "```\nno closing fence");
}

#[test]
fn test_unterminated_fence_after_block() {
    let input = "```\nfirst\n```\n```\ndangling";
    assert_eq!(strip_codeblocks(input), "first\n\n```\ndangling");
}

#[test]
fn test_adjacent_codeblocks() {
    // Adjacent blocks place their contents directly next to each other.
    let input = "```rust\nfn a() {}\n``````python\nprint('b')\n```";
    assert_eq!(strip_codeblocks(input), "fn a() {}\nprint('b')\n");
}

#[test]
fn test_backtick_in_tag_position() {
    // A backtick on the opening line keeps the fence from being recognized.
    let input = "```js`\ncode\n```";
    assert_eq!(strip_codeblocks(input), "```js`\ncode\n```");
}

#[test]
fn test_double_backtick_inline_only() {
    let input = "Some ``double`` and `single` spans.";
    assert_eq!(strip_codeblocks(input), "Some ``double`` and `single` spans.");
}

#[test]
fn test_close_found_early_in_backtick_run() {
    // The closing fence is the first run of three backticks after the
    // content begins, so trailing content backticks join the closing run.
    let input = "```\nab`````";
    assert_eq!(strip_codeblocks(input), "ab``");
}

#[test]
fn test_content_keeps_trailing_newline() {
    let input = "```rust\nfn main() {}\n```";
    assert_eq!(strip_codeblocks(input), "fn main() {}\n");
}

#[test]
fn test_fence_without_newline_unmatched() {
    // Three backticks never followed by a newline open nothing.
    let input = "```rust";
    assert_eq!(strip_codeblocks(input), "```rust");
}

#[test]
fn test_multibyte_characters() {
    let input = "héllo ```\nwörld ✓\n``` ok";
    assert_eq!(strip_codeblocks(input), "héllo wörld ✓\n ok");
}
