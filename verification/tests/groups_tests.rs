use confer::groups::group_frontmatter;

#[test]
fn group_card_frontmatter_is_between_the_fences() {
    assert_eq!(group_frontmatter("---\nmembers: [a, b]\n---\nnotes\n").as_deref(), Some("members: [a, b]\n"));
    assert_eq!(group_frontmatter("--- \r\nmembers:\r\n  - a\r\n---\r\n").as_deref(), Some("members:\n  - a\n"));
    assert_eq!(group_frontmatter("---\nmembers: [a]").as_deref(), Some("members: [a]\n"));
    assert_eq!(group_frontmatter("members: [a]\n"), None);
    assert_eq!(group_frontmatter(""), None);
    assert_eq!(group_frontmatter("---\n---\n---\nx\n").as_deref(), Some(""));
}
