//! The preview cache: where the preview of a source file is kept, and what
//! to do when one is asked for. The cache mirrors the served tree below its
//! root; it is read through and written once, and nothing in it is ever
//! changed or removed.

use crate::text::{chars_of, push_chars};
use crate::thumbnail::ThumbnailError;
use vstd::prelude::*;
use vstd::string::*;

verus! {

/// The component that stands for the directory itself.
pub open spec fn dot() -> Seq<char> {
    seq!['.']
}

/// The component that stands for the parent directory.
pub open spec fn dot_dot() -> Seq<char> {
    seq!['.', '.']
}

/// The components read so far, once the one being read has ended: an empty
/// one and one that stands for the directory itself are dropped.
pub open spec fn closed(parts: Seq<Seq<char>>, current: Seq<char>) -> Seq<Seq<char>> {
    if current.len() == 0 || current == dot() {
        parts
    } else {
        parts.push(current)
    }
}

/// A path read from left to right: the components that have ended, and the
/// characters of the one that has not. A slash ends a component.
pub open spec fn scanned(path: Seq<char>) -> (Seq<Seq<char>>, Seq<char>)
    decreases path.len(),
{
    if path.len() == 0 {
        (Seq::empty(), Seq::empty())
    } else {
        let (parts, current) = scanned(path.drop_last());
        if path.last() == '/' {
            (closed(parts, current), Seq::empty())
        } else {
            (parts, current.push(path.last()))
        }
    }
}

/// The components of a path: what stands between its slashes, without the
/// empty components and those that stand for the directory itself. Leading
/// slashes therefore count for nothing.
pub open spec fn components(path: Seq<char>) -> Seq<Seq<char>> {
    closed(scanned(path).0, scanned(path).1)
}

/// The components written one after the other, with a slash between each
/// two.
pub open spec fn joined(parts: Seq<Seq<char>>) -> Seq<char>
    decreases parts.len(),
{
    if parts.len() == 0 {
        Seq::empty()
    } else if parts.len() == 1 {
        parts[0]
    } else {
        joined(parts.drop_last()) + seq!['/'] + parts.last()
    }
}

/// The slash that parts a root from what is put below it, unless the root
/// is empty or ends in one.
pub open spec fn separator(root: Seq<char>) -> Seq<char> {
    if root.len() == 0 || root.last() == '/' {
        Seq::empty()
    } else {
        seq!['/']
    }
}

/// Where the preview of the source file at `source` is kept in a cache
/// rooted at `root`: at the same path below the root. A source path that
/// names no file, or that steps up to a parent directory, has no place in
/// the cache.
pub open spec fn location_of(root: Seq<char>, source: Seq<char>) -> Option<Seq<char>> {
    let parts = components(source);
    if parts.len() == 0 || parts.contains(dot_dot()) {
        None
    } else {
        Some(root + separator(root) + joined(parts))
    }
}

/// A cache of previews below one directory.
#[derive(Debug, PartialEq, Eq)]
pub struct ThumbnailCache {
    pub root: String,
}

/// What the caller is to do next for a request to the cache. Each step but
/// the last two is answered by handing its result to the function named
/// with it.
#[derive(Debug, PartialEq, Eq)]
pub enum Step {
    /// Look for a file at `location`; its content, if it is there, goes to
    /// `after_lookup`.
    Lookup { location: String },
    /// Have the preview made; the outcome goes to `after_generation`.
    Generate { location: String },
    /// Write `png` to `location` so that no reader sees a part of it, and
    /// answer the request with `png`.
    Store { location: String, png: Vec<u8> },
    /// Answer the request.
    Answer(Option<Vec<u8>>),
}

/// What a `Step` stands for.
pub enum StepView {
    Lookup { location: Seq<char> },
    Generate { location: Seq<char> },
    Store { location: Seq<char>, png: Seq<u8> },
    Answer(Option<Seq<u8>>),
}

impl View for Step {
    type V = StepView;

    open spec fn view(&self) -> StepView {
        match self {
            Step::Lookup { location } => StepView::Lookup { location: location@ },
            Step::Generate { location } => StepView::Generate { location: location@ },
            Step::Store { location, png } => StepView::Store { location: location@, png: png@ },
            Step::Answer(Some(png)) => StepView::Answer(Some(png@)),
            Step::Answer(None) => StepView::Answer(None),
        }
    }
}

/// The first step of a request: the cache is looked into, unless the source
/// has no place in it.
pub open spec fn first_step(root: Seq<char>, source: Seq<char>) -> StepView {
    match location_of(root, source) {
        Some(location) => StepView::Lookup { location },
        None => StepView::Answer(None),
    }
}

/// The step that follows the look into the cache: what was found is the
/// answer; where nothing was found, a preview is made, but only of a
/// regular file.
pub open spec fn step_after_lookup(
    location: Seq<char>,
    cached: Option<Seq<u8>>,
    is_regular_file: bool,
) -> StepView {
    match cached {
        Some(png) => StepView::Answer(Some(png)),
        None => if is_regular_file {
            StepView::Generate { location }
        } else {
            StepView::Answer(None)
        },
    }
}

/// The step that follows the making of a preview: a preview is stored, a
/// failure is answered with nothing and leaves no trace.
pub open spec fn step_after_generation(
    location: Seq<char>,
    outcome: Result<Seq<u8>, ThumbnailError>,
) -> StepView {
    match outcome {
        Ok(png) => StepView::Store { location, png },
        Err(_) => StepView::Answer(None),
    }
}

/// Ends the component `chars[start..end]`: unless it is dropped, it is
/// written behind those before it.
fn close_component(
    mirrored: &mut String,
    any: &mut bool,
    escapes: &mut bool,
    chars: &Vec<char>,
    start: usize,
    end: usize,
    Ghost(parts): Ghost<Seq<Seq<char>>>,
)
    requires
        start <= end <= chars.len(),
        old(mirrored)@ == joined(parts),
        *old(any) == (parts.len() > 0),
        *old(escapes) == parts.contains(dot_dot()),
    ensures
        final(mirrored)@ == joined(closed(parts, chars@.subrange(start as int, end as int))),
        *final(any) == (closed(parts, chars@.subrange(start as int, end as int)).len() > 0),
        *final(escapes) == closed(parts, chars@.subrange(start as int, end as int)).contains(
            dot_dot(),
        ),
{
    let ghost current = chars@.subrange(start as int, end as int);
    let n: usize = end - start;
    if n == 0 {
        return ;
    }
    if n == 1 && chars[start] == '.' {
        assert(current =~= dot());
        return ;
    }
    assert(current != dot()) by {
        if current.len() == 1 {
            assert(current[0] == chars@[start as int]);
            assert(dot()[0] == '.');
        }
    }
    let ghost next = parts.push(current);
    assert(next.drop_last() =~= parts);
    if *any {
        mirrored.push('/');
    }
    push_chars(mirrored, chars, start, end);
    assert(mirrored@ =~= joined(next));
    let steps_up = n == 2 && chars[start] == '.' && chars[start + 1] == '.';
    assert(steps_up == (current == dot_dot())) by {
        if steps_up {
            assert(current =~= dot_dot());
        } else if current.len() == 2 {
            assert(current[0] == chars@[start as int]);
            assert(current[1] == chars@[start + 1]);
            assert(dot_dot()[0] == '.' && dot_dot()[1] == '.');
        }
    }
    assert(next.contains(dot_dot()) == (parts.contains(dot_dot()) || current == dot_dot())) by {
        if parts.contains(dot_dot()) {
            let k = choose|k: int| 0 <= k < parts.len() && parts[k] == dot_dot();
            assert(next[k] == dot_dot());
        }
        if current == dot_dot() {
            assert(next[parts.len() as int] == dot_dot());
        }
        if next.contains(dot_dot()) {
            let k = choose|k: int| 0 <= k < next.len() && next[k] == dot_dot();
            if k < parts.len() {
                assert(parts[k] == dot_dot());
            }
        }
    }
    if steps_up {
        *escapes = true;
    }
    *any = true;
}

impl ThumbnailCache {
    /// A cache that keeps its previews below `root`.
    pub fn new(root: String) -> (cache: ThumbnailCache)
        ensures
            cache.root@ == root@,
    {
        ThumbnailCache { root }
    }

    /// Where the preview of the source file at `source` is kept, if the
    /// source has a place in the cache.
    pub fn location(&self, source: &str) -> (location: Option<String>)
        ensures
            match location {
                Some(l) => location_of(self.root@, source@) == Some(l@),
                None => location_of(self.root@, source@) is None,
            },
    {
        let chars = chars_of(source);
        let mut mirrored = String::new();
        let mut any = false;
        let mut escapes = false;
        let mut start: usize = 0;
        let mut i: usize = 0;
        while i < chars.len()
            invariant
                start <= i <= chars.len(),
                chars@ == source@,
                scanned(chars@.take(i as int)).1 == chars@.subrange(start as int, i as int),
                mirrored@ == joined(scanned(chars@.take(i as int)).0),
                any == (scanned(chars@.take(i as int)).0.len() > 0),
                escapes == scanned(chars@.take(i as int)).0.contains(dot_dot()),
            decreases chars.len() - i,
        {
            let ghost before = scanned(chars@.take(i as int));
            assert(chars@.take(i + 1).drop_last() =~= chars@.take(i as int));
            assert(chars@.take(i + 1).last() == chars@[i as int]);
            if chars[i] == '/' {
                close_component(
                    &mut mirrored,
                    &mut any,
                    &mut escapes,
                    &chars,
                    start,
                    i,
                    Ghost(before.0),
                );
                start = i + 1;
                assert(chars@.subrange(start as int, i + 1) =~= Seq::<char>::empty());
            } else {
                assert(chars@.subrange(start as int, i + 1) =~= before.1.push(chars@[i as int]));
            }
            i = i + 1;
        }
        assert(chars@.take(chars.len() as int) =~= chars@);
        close_component(
            &mut mirrored,
            &mut any,
            &mut escapes,
            &chars,
            start,
            i,
            Ghost(scanned(chars@).0),
        );
        if !any || escapes {
            return None;
        }
        let root_chars = chars_of(self.root.as_str());
        let mut location = self.root.clone();
        if !(root_chars.len() == 0 || root_chars[root_chars.len() - 1] == '/') {
            location.push('/');
        }
        location.append(mirrored.as_str());
        assert(location@ =~= self.root@ + separator(self.root@) + joined(components(source@)));
        Some(location)
    }

    /// Begins a request for the preview of the source file at `source`.
    pub fn begin(&self, source: &str) -> (step: Step)
        ensures
            step@ == first_step(self.root@, source@),
    {
        match self.location(source) {
            Some(location) => Step::Lookup { location },
            None => Step::Answer(None),
        }
    }
}

/// Goes on after the look into the cache: `cached` holds the content of the
/// file at `location`, or nothing where no file is there.
pub fn after_lookup(location: String, cached: Option<Vec<u8>>, is_regular_file: bool) -> (step: Step)
    ensures
        step@ == step_after_lookup(
            location@,
            match cached {
                Some(png) => Some(png@),
                None => None,
            },
            is_regular_file,
        ),
{
    match cached {
        Some(png) => Step::Answer(Some(png)),
        None => if is_regular_file {
            Step::Generate { location }
        } else {
            Step::Answer(None)
        },
    }
}

/// Goes on after the preview was made, or could not be.
pub fn after_generation(location: String, outcome: Result<Vec<u8>, ThumbnailError>) -> (step: Step)
    ensures
        step@ == step_after_generation(
            location@,
            match outcome {
                Ok(png) => Ok(png@),
                Err(e) => Err(e),
            },
        ),
{
    match outcome {
        Ok(png) => Step::Store { location, png },
        Err(_) => Step::Answer(None),
    }
}

/// How a request ended: what it was answered with, the files of the cache
/// after it, and whether a preview had to be made for it.
pub struct Served {
    pub answer: Option<Seq<u8>>,
    pub files: Map<Seq<char>, Seq<u8>>,
    pub generated: bool,
}

/// What is found at `location` among the files of a cache.
pub open spec fn found(files: Map<Seq<char>, Seq<u8>>, location: Seq<char>) -> Option<Seq<u8>> {
    if files.contains_key(location) {
        Some(files[location])
    } else {
        None
    }
}

/// A request for the preview of `source`, taken step by step to its end
/// against the files of a cache, where making the preview would end as
/// `outcome` says.
pub open spec fn request(
    files: Map<Seq<char>, Seq<u8>>,
    root: Seq<char>,
    source: Seq<char>,
    is_regular_file: bool,
    outcome: Result<Seq<u8>, ThumbnailError>,
) -> Served {
    match first_step(root, source) {
        StepView::Lookup { location } => match step_after_lookup(
            location,
            found(files, location),
            is_regular_file,
        ) {
            StepView::Generate { location } => match step_after_generation(location, outcome) {
                StepView::Store { location, png } => Served {
                    answer: Some(png),
                    files: files.insert(location, png),
                    generated: true,
                },
                _ => Served { answer: None, files, generated: true },
            },
            StepView::Answer(answer) => Served { answer, files, generated: false },
            _ => Served { answer: None, files, generated: false },
        },
        StepView::Answer(answer) => Served { answer, files, generated: false },
        _ => Served { answer: None, files, generated: false },
    }
}

/// A request that was answered with a preview is answered with the same
/// bytes when it is made again, whatever has become of the source since:
/// the second request finds the preview in the cache, has none made, and
/// leaves the cache as it is.
pub proof fn lemma_second_request_is_a_hit(
    files: Map<Seq<char>, Seq<u8>>,
    root: Seq<char>,
    source: Seq<char>,
    is_regular_file: bool,
    outcome: Result<Seq<u8>, ThumbnailError>,
    is_regular_file_later: bool,
    outcome_later: Result<Seq<u8>, ThumbnailError>,
)
    ensures
        ({
            let first = request(files, root, source, is_regular_file, outcome);
            let second = request(first.files, root, source, is_regular_file_later, outcome_later);
            first.answer is Some ==> second.answer == first.answer && !second.generated
                && second.files == first.files
        }),
{
}

/// A request never changes or removes what the cache holds, and one that is
/// answered with nothing leaves the cache as it was: a failure is not
/// remembered, and the next request tries again.
pub proof fn lemma_cache_only_grows(
    files: Map<Seq<char>, Seq<u8>>,
    root: Seq<char>,
    source: Seq<char>,
    is_regular_file: bool,
    outcome: Result<Seq<u8>, ThumbnailError>,
)
    ensures
        ({
            let served = request(files, root, source, is_regular_file, outcome);
            &&& forall|location: Seq<char>| #[trigger]
                files.contains_key(location) ==> served.files.contains_key(location)
                    && served.files[location] == files[location]
            &&& served.answer is None ==> served.files == files
        }),
{
}

/// Whether `part` can stand as a component of a normalized path: it is not
/// empty, holds no slash, and does not stand for the directory itself.
pub open spec fn is_clean(part: Seq<char>) -> bool {
    part.len() > 0 && part != dot() && !part.contains('/')
}

/// Whether every one of `parts` is clean.
pub open spec fn all_clean(parts: Seq<Seq<char>>) -> bool {
    forall|k: int| 0 <= k < parts.len() ==> is_clean(#[trigger] parts[k])
}

/// While a path is read, the components that have ended are clean and the
/// one being read holds no slash.
proof fn lemma_scanned_is_clean(path: Seq<char>)
    ensures
        all_clean(scanned(path).0),
        !scanned(path).1.contains('/'),
    decreases path.len(),
{
    if path.len() > 0 {
        lemma_scanned_is_clean(path.drop_last());
        let (parts, current) = scanned(path.drop_last());
        if path.last() != '/' {
            let longer = current.push(path.last());
            assert forall|i: int| 0 <= i < longer.len() implies longer[i] != '/' by {
                if i < current.len() {
                    assert(current.contains(current[i]));
                }
            }
        }
    }
}

/// The components of a path are clean.
pub proof fn lemma_components_are_clean(path: Seq<char>)
    ensures
        all_clean(components(path)),
{
    lemma_scanned_is_clean(path);
}

/// Characters other than the slash only lengthen the component being read.
proof fn lemma_scanned_append(path: Seq<char>, tail: Seq<char>)
    requires
        !tail.contains('/'),
    ensures
        scanned(path + tail) == (scanned(path).0, scanned(path).1 + tail),
    decreases tail.len(),
{
    if tail.len() == 0 {
        assert(path + tail =~= path);
        assert(scanned(path).1 + tail =~= scanned(path).1);
    } else {
        let front = tail.drop_last();
        assert forall|i: int| 0 <= i < front.len() implies front[i] != '/' by {
            assert(tail.contains(tail[i]));
        }
        assert(tail.contains(tail.last()));
        lemma_scanned_append(path, front);
        assert((path + tail).drop_last() =~= path + front);
        assert((scanned(path).1 + front).push(tail.last()) =~= scanned(path).1 + tail);
    }
}

/// Clean components written out with slashes are read back one by one.
proof fn lemma_scanned_joined(parts: Seq<Seq<char>>)
    requires
        parts.len() > 0,
        all_clean(parts),
    ensures
        scanned(joined(parts)) == (parts.drop_last(), parts.last()),
    decreases parts.len(),
{
    let empty = Seq::<char>::empty();
    if parts.len() == 1 {
        lemma_scanned_append(empty, parts[0]);
        assert(empty + parts[0] =~= parts[0]);
        assert(parts.drop_last() =~= Seq::<Seq<char>>::empty());
    } else {
        let front = parts.drop_last();
        assert(all_clean(front)) by {
            assert forall|k: int| 0 <= k < front.len() implies is_clean(#[trigger] front[k]) by {
                assert(front[k] == parts[k]);
            }
        }
        lemma_scanned_joined(front);
        let ended = joined(front) + seq!['/'];
        assert(ended.drop_last() =~= joined(front));
        assert(is_clean(front.last())) by {
            assert(front.last() == parts[parts.len() - 2]);
        }
        assert(front.drop_last().push(front.last()) =~= front);
        assert(scanned(ended) == (front, empty));
        assert(is_clean(parts.last()));
        lemma_scanned_append(ended, parts.last());
        assert(empty + parts.last() =~= parts.last());
    }
}

/// Writing clean components out and reading them back gives the same
/// components.
pub proof fn lemma_joined_reads_back(parts: Seq<Seq<char>>)
    requires
        all_clean(parts),
    ensures
        components(joined(parts)) == parts,
{
    if parts.len() == 0 {
        assert(components(joined(parts)) =~= parts);
    } else {
        lemma_scanned_joined(parts);
        assert(is_clean(parts.last()));
        assert(parts.drop_last().push(parts.last()) =~= parts);
    }
}

/// A preview is kept below the cache's root at the very path that its source
/// has below the served root: the components of the two are the same, and
/// none of them steps up to a parent directory.
pub proof fn lemma_location_mirrors_source(root: Seq<char>, source: Seq<char>)
    ensures
        location_of(root, source) matches Some(location) ==> {
            let mirrored = joined(components(source));
            &&& location == root + separator(root) + mirrored
            &&& components(mirrored) == components(source)
            &&& !components(mirrored).contains(dot_dot())
        },
{
    lemma_components_are_clean(source);
    lemma_joined_reads_back(components(source));
}

/// The place of a preview depends on the components of its source alone:
/// however the source path is written, the preview is found again.
pub proof fn lemma_location_of_normalized(root: Seq<char>, source: Seq<char>)
    ensures
        location_of(root, joined(components(source))) == location_of(root, source),
{
    lemma_components_are_clean(source);
    lemma_joined_reads_back(components(source));
}

} // verus!
