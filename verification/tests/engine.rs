use frontmatter_gen::engine::{is_markdown_file, split_page, template_name, SizeCache, MAX_CACHE_SIZE};

#[test]
fn cache_inserts_replaces_and_clears() {
    let mut cache: SizeCache<String> = SizeCache::new(MAX_CACHE_SIZE);
    assert_eq!(cache.len(), 0);
    assert_eq!(cache.insert("a".to_string(), "1".to_string()), None);
    assert_eq!(cache.insert("a".to_string(), "2".to_string()), Some("1".to_string()));
    assert_eq!(cache.get("a"), Some(&"2".to_string()));
    assert_eq!(cache.len(), 1);
    cache.clear();
    assert_eq!(cache.len(), 0);
    assert_eq!(cache.get("a"), None);
}

#[test]
fn full_cache_evicts_before_inserting() {
    let mut cache: SizeCache<u32> = SizeCache::new(2);
    let _ = cache.insert("a".to_string(), 1);
    let _ = cache.insert("b".to_string(), 2);
    assert_eq!(cache.len(), 2);
    let _ = cache.insert("c".to_string(), 3);
    assert_eq!(cache.len(), 2);
    assert_eq!(cache.get("a"), None);
    assert_eq!(cache.get("b"), Some(&2));
    assert_eq!(cache.get("c"), Some(&3));
    for _ in 0..10 {
        let _ = cache.insert("d".to_string(), 4);
        assert!(cache.len() <= 2);
    }
    let mut zero: SizeCache<u32> = SizeCache::new(0);
    let _ = zero.insert("x".to_string(), 1);
    let _ = zero.insert("y".to_string(), 2);
    assert_eq!(zero.len(), 1);
    assert_eq!(zero.get("y"), Some(&2));
}

#[test]
fn template_and_content_file_names() {
    assert_eq!(template_name("default.html"), Some("default"));
    assert_eq!(template_name("page.hbs"), Some("page"));
    assert_eq!(template_name("archive.tar.html"), Some("archive.tar"));
    assert_eq!(template_name("invalid.txt"), None);
    assert_eq!(template_name(".html"), None);
    assert_eq!(template_name("html"), None);
    assert!(is_markdown_file("post.md"));
    assert!(!is_markdown_file("post.mdx"));
    assert!(!is_markdown_file(".md"));
}

#[test]
fn pages_split_at_the_first_two_fences() {
    let content = "---\ntitle: Test Post\n---\n\n  This is the main content.  \n";
    let (fm, body) = split_page(content).unwrap();
    assert_eq!(fm, "\ntitle: Test Post\n");
    assert_eq!(body, "This is the main content.");
    assert_eq!(split_page("no fences here"), None);
    assert_eq!(split_page("one --- only"), None);
    let (fm, body) = split_page("a---b---c---d").unwrap();
    assert_eq!(fm, "b");
    assert_eq!(body, "c---d");
}
