use file_browser::cache::{after_generation, after_lookup, Step, ThumbnailCache};
use file_browser::thumbnail::ThumbnailError;
use std::collections::HashMap;

fn place(root: &str, source: &str) -> Option<String> {
    ThumbnailCache::new(String::from(root)).location(source)
}

/// Takes one request to its end against files held in memory; `made` counts
/// how often a preview was asked for.
fn get_or_create(
    cache: &ThumbnailCache,
    files: &mut HashMap<String, Vec<u8>>,
    source: &str,
    is_regular_file: bool,
    outcome: Result<Vec<u8>, ThumbnailError>,
    made: &mut u32,
) -> Option<Vec<u8>> {
    let mut step = cache.begin(source);
    loop {
        step = match step {
            Step::Lookup { location } => {
                let cached = files.get(&location).cloned();
                after_lookup(location, cached, is_regular_file)
            }
            Step::Generate { location } => {
                *made += 1;
                after_generation(location, outcome.clone())
            }
            Step::Store { location, png } => {
                files.entry(location).or_insert(png.clone());
                return Some(png);
            }
            Step::Answer(answer) => return answer,
        };
    }
}

#[test]
fn previews_mirror_the_served_tree() {
    assert_eq!(place("./.cache", "dir/a.png"), Some(String::from("./.cache/dir/a.png")));
    assert_eq!(place("./.cache", "a.png"), Some(String::from("./.cache/a.png")));
    assert_eq!(place(".cache", "x/y/z.mp4"), Some(String::from(".cache/x/y/z.mp4")));
    assert_eq!(place("/var/cache", "x"), Some(String::from("/var/cache/x")));
}

#[test]
fn cache_root_may_bring_its_own_slash() {
    assert_eq!(place("./.cache/", "dir/a.png"), Some(String::from("./.cache/dir/a.png")));
    assert_eq!(place("/", "a"), Some(String::from("/a")));
    assert_eq!(place("", "dir/a.png"), Some(String::from("dir/a.png")));
}

#[test]
fn source_paths_are_normalized() {
    assert_eq!(place("c", "/dir/a.png"), Some(String::from("c/dir/a.png")));
    assert_eq!(place("c", "///dir/a.png"), Some(String::from("c/dir/a.png")));
    assert_eq!(place("c", "./dir/a.png"), Some(String::from("c/dir/a.png")));
    assert_eq!(place("c", "dir//a.png"), Some(String::from("c/dir/a.png")));
    assert_eq!(place("c", "dir/./a.png"), Some(String::from("c/dir/a.png")));
    assert_eq!(place("c", "dir/a.png/"), Some(String::from("c/dir/a.png")));
    assert_eq!(place("c", "dir/a.png/."), Some(String::from("c/dir/a.png")));
    assert_eq!(place("c", "\u{e9}t\u{e9}/\u{4e2d}.png"), Some(String::from("c/\u{e9}t\u{e9}/\u{4e2d}.png")));
}

#[test]
fn traversal_out_of_the_tree_is_refused() {
    // The cache is hardened against `..`: a source path with such a
    // component has no place in it, wherever the component stands.
    assert_eq!(place("c", ".."), None);
    assert_eq!(place("c", "../etc/passwd"), None);
    assert_eq!(place("c", "/../etc/passwd"), None);
    assert_eq!(place("c", "dir/../a.png"), None);
    assert_eq!(place("c", "dir/a.png/.."), None);
    assert_eq!(place("c", "a/b/../../../x"), None);
}

#[test]
fn dots_inside_names_are_no_traversal() {
    assert_eq!(place("c", "a..b"), Some(String::from("c/a..b")));
    assert_eq!(place("c", "..."), Some(String::from("c/...")));
    assert_eq!(place("c", "..a/b.."), Some(String::from("c/..a/b..")));
    assert_eq!(place("c", ".hidden/a"), Some(String::from("c/.hidden/a")));
}

#[test]
fn a_path_that_names_nothing_has_no_place() {
    assert_eq!(place("c", ""), None);
    assert_eq!(place("c", "/"), None);
    assert_eq!(place("c", "."), None);
    assert_eq!(place("c", "./"), None);
    assert_eq!(place("c", "//./"), None);
}

#[test]
fn request_begins_with_a_look_into_the_cache() {
    let cache = ThumbnailCache::new(String::from(".cache"));
    assert_eq!(cache.begin("dir/a.png"), Step::Lookup { location: String::from(".cache/dir/a.png") });
    assert_eq!(cache.begin("../a.png"), Step::Answer(None));
    assert_eq!(cache.begin(""), Step::Answer(None));
}

#[test]
fn what_the_cache_holds_is_the_answer() {
    assert_eq!(
        after_lookup(String::from("c/a"), Some(vec![1, 2]), true),
        Step::Answer(Some(vec![1, 2]))
    );
    assert_eq!(
        after_lookup(String::from("c/a"), Some(vec![1, 2]), false),
        Step::Answer(Some(vec![1, 2]))
    );
    assert_eq!(
        after_lookup(String::from("c/a"), Some(vec![]), true),
        Step::Answer(Some(vec![]))
    );
}

#[test]
fn a_miss_has_the_preview_made_for_regular_files_only() {
    assert_eq!(
        after_lookup(String::from("c/a"), None, true),
        Step::Generate { location: String::from("c/a") }
    );
    assert_eq!(after_lookup(String::from("c/a"), None, false), Step::Answer(None));
}

#[test]
fn a_new_preview_is_stored_and_a_failure_is_not() {
    assert_eq!(
        after_generation(String::from("c/a"), Ok(vec![7, 8])),
        Step::Store { location: String::from("c/a"), png: vec![7, 8] }
    );
    for error in [
        ThumbnailError::UnsupportedKind,
        ThumbnailError::ExternalToolError,
        ThumbnailError::ParseError,
        ThumbnailError::InvalidImage,
        ThumbnailError::IoFailure,
    ] {
        assert_eq!(after_generation(String::from("c/a"), Err(error)), Step::Answer(None));
    }
}

#[test]
fn second_request_is_a_hit_with_the_same_bytes() {
    let cache = ThumbnailCache::new(String::from(".cache"));
    let mut files = HashMap::new();
    let mut made = 0;
    let first = get_or_create(&cache, &mut files, "dir/a.png", true, Ok(vec![1, 2, 3]), &mut made);
    assert_eq!(first, Some(vec![1, 2, 3]));
    assert_eq!(made, 1);
    assert_eq!(files.get(".cache/dir/a.png"), Some(&vec![1, 2, 3]));
    let second = get_or_create(&cache, &mut files, "dir/a.png", true, Ok(vec![9, 9]), &mut made);
    assert_eq!(second, first);
    assert_eq!(made, 1);
    let third = get_or_create(
        &cache,
        &mut files,
        "/dir/./a.png",
        false,
        Err(ThumbnailError::ExternalToolError),
        &mut made,
    );
    assert_eq!(third, first);
    assert_eq!(made, 1);
    assert_eq!(files.len(), 1);
}

#[test]
fn failures_are_tried_again() {
    let cache = ThumbnailCache::new(String::from(".cache"));
    let mut files = HashMap::new();
    let mut made = 0;
    let failed: Result<Vec<u8>, ThumbnailError> = Err(ThumbnailError::ExternalToolError);
    assert_eq!(
        get_or_create(&cache, &mut files, "clip.mp4", true, failed.clone(), &mut made),
        None
    );
    assert_eq!(made, 1);
    assert!(files.is_empty());
    assert_eq!(get_or_create(&cache, &mut files, "clip.mp4", true, failed, &mut made), None);
    assert_eq!(made, 2);
    assert_eq!(
        get_or_create(&cache, &mut files, "clip.mp4", true, Ok(vec![5]), &mut made),
        Some(vec![5])
    );
    assert_eq!(made, 3);
}

#[test]
fn directories_get_no_preview_made() {
    let cache = ThumbnailCache::new(String::from(".cache"));
    let mut files = HashMap::new();
    let mut made = 0;
    assert_eq!(get_or_create(&cache, &mut files, "photos", false, Ok(vec![1]), &mut made), None);
    assert_eq!(made, 0);
    assert!(files.is_empty());
}
