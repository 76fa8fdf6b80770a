//! Directory listings: the entries of a directory, the order in which they
//! are shown, and the HTML page that shows them.

use crate::media::{guessed_content_type, kind_of, MimeKind};
use crate::order::{
    at_most, bytes_le, display_order, is_hidden, is_listing_order, lemma_bytes_le_antisymmetric,
    lemma_bytes_le_transitive, lemma_listing_order_is_unique, lemma_order_of_prefix,
    lemma_order_reads_prefix, lemma_rank_at_split, listed_before, order_of_prefix, rank, sort_key,
};
use crate::text::chars_of;
use vstd::prelude::*;
use vstd::string::*;

verus! {

/// One entry of a directory.
#[derive(Debug, PartialEq, Eq)]
pub struct FileEntry {
    pub name: String,
    pub is_dir: bool,
    pub mime_kind: MimeKind,
}

/// What a `FileEntry` stands for.
pub struct EntryView {
    pub name: Seq<char>,
    pub is_dir: bool,
    pub mime_kind: MimeKind,
}

impl View for FileEntry {
    type V = EntryView;

    open spec fn view(&self) -> EntryView {
        EntryView { name: self.name@, is_dir: self.is_dir, mime_kind: self.mime_kind }
    }
}

/// The views of a run of entries.
pub open spec fn views(entries: Seq<FileEntry>) -> Seq<EntryView> {
    entries.map_values(|e: FileEntry| e@)
}

/// The names of a run of entries.
pub open spec fn names(entries: Seq<EntryView>) -> Seq<Seq<char>> {
    entries.map_values(|e: EntryView| e.name)
}

impl FileEntry {
    /// The entry for a file or directory called `name`; its kind is judged
    /// by the name's extension.
    pub fn new(name: String, is_dir: bool) -> (entry: FileEntry)
        ensures
            entry@ == (EntryView {
                name: name@,
                is_dir,
                mime_kind: kind_of(guessed_content_type(name@)),
            }),
    {
        let mime_kind = MimeKind::of_path(name.as_str());
        FileEntry { name, is_dir, mime_kind }
    }

    /// Whether the entry is left out of listings.
    pub fn hidden(&self) -> (hidden: bool)
        ensures
            hidden == is_hidden(self@.name),
    {
        let name = self.name.as_str();
        !name.is_empty() && name.get_char(0) == '.'
    }

    /// Whether a preview is asked for on behalf of the entry: it is shown,
    /// and it is an image or a video.
    pub fn wants_thumbnail(&self) -> (asked: bool)
        ensures
            asked == (!is_hidden(self@.name) && self@.mime_kind.previewable()),
    {
        !self.hidden() && self.mime_kind.wants_preview()
    }
}

/// Where in `order` an entry with the given key goes: behind every entry
/// that does not sort after it.
fn insertion_point(entries: &Vec<FileEntry>, order: &Vec<usize>, key: &[u8]) -> (pos: usize)
    requires
        forall|k: int| 0 <= k < order.len() ==> (#[trigger] order[k]) < entries.len(),
        forall|a: int, b: int|
            0 <= a < b < order.len() ==> bytes_le(
                sort_key(names(views(entries@))[#[trigger] order[a] as int]),
                sort_key(names(views(entries@))[#[trigger] order[b] as int]),
            ),
    ensures
        pos == rank(names(views(entries@)), order@, key@),
        pos <= order.len(),
{
    let ghost all = names(views(entries@));
    let mut lo: usize = 0;
    let mut hi: usize = order.len();
    while lo < hi
        invariant
            lo <= hi <= order.len(),
            all == names(views(entries@)),
            forall|k: int| 0 <= k < order.len() ==> (#[trigger] order[k]) < entries.len(),
            forall|a: int, b: int|
                0 <= a < b < order.len() ==> bytes_le(
                    sort_key(all[#[trigger] order[a] as int]),
                    sort_key(all[#[trigger] order[b] as int]),
                ),
            forall|k: int| 0 <= k < lo ==> bytes_le(sort_key(all[#[trigger] order[k] as int]), key@),
            forall|k: int|
                hi <= k < order.len() ==> !bytes_le(sort_key(all[#[trigger] order[k] as int]), key@),
        decreases hi - lo,
    {
        let mid: usize = lo + (hi - lo) / 2;
        let at: usize = order[mid];
        let other = entries[at].name.as_str().as_bytes();
        assert(other@ == sort_key(all[at as int]));
        if at_most(other, key) {
            assert forall|k: int| 0 <= k < mid + 1 implies bytes_le(
                sort_key(all[#[trigger] order[k] as int]),
                key@,
            ) by {
                if k < mid {
                    lemma_bytes_le_transitive(
                        sort_key(all[order[k] as int]),
                        sort_key(all[order[mid as int] as int]),
                        key@,
                    );
                }
            }
            lo = mid + 1;
        } else {
            assert forall|k: int| mid <= k < order.len() implies !bytes_le(
                sort_key(all[#[trigger] order[k] as int]),
                key@,
            ) by {
                if k > mid && bytes_le(sort_key(all[order[k] as int]), key@) {
                    lemma_bytes_le_transitive(
                        sort_key(all[order[mid as int] as int]),
                        sort_key(all[order[k] as int]),
                        key@,
                    );
                }
            }
            hi = mid;
        }
    }
    proof {
        lemma_rank_at_split(all, order@, key@, lo as int);
    }
    lo
}

/// The order in which to list `entries`: the positions of those that are not
/// hidden, sorted by name byte by byte, equal names in the order given.
pub fn listing_order(entries: &Vec<FileEntry>) -> (order: Vec<usize>)
    ensures
        order@ == display_order(names(views(entries@))),
        is_listing_order(names(views(entries@)), entries@.len(), order@),
{
    let ghost all = names(views(entries@));
    let mut order: Vec<usize> = Vec::new();
    let mut i: usize = 0;
    while i < entries.len()
        invariant
            i <= entries.len(),
            all == names(views(entries@)),
            order@ == order_of_prefix(all, i as nat),
        decreases entries.len() - i,
    {
        proof {
            lemma_order_of_prefix(all, i as nat);
        }
        if !entries[i].hidden() {
            let key = entries[i].name.as_str().as_bytes();
            assert(key@ == sort_key(all[i as int]));
            let pos = insertion_point(entries, &order, key);
            order.insert(pos, i);
        }
        i = i + 1;
    }
    proof {
        lemma_order_of_prefix(all, entries@.len());
    }
    order
}

/// The text that the standard base64 alphabet, with `=` padding, gives for
/// `data`.
pub uninterp spec fn base64_text(data: Seq<u8>) -> Seq<char>;

/// The longest preview that is embedded in a page: a quarter of the address
/// space, so that its base64 text can be held in memory.
pub open spec fn embeddable(png: Seq<u8>) -> bool {
    png.len() <= usize::MAX / 4
}

/// Calls `encode` of base64's `STANDARD` engine. The text depends on the
/// bytes alone. The crate panics where the encoded length does not fit in
/// memory, which `requires` rules out.
#[verifier::external_body]
fn encode_base64(data: &[u8]) -> (text: String)
    requires
        embeddable(data@),
    ensures
        text@ == base64_text(data@),
{
    base64::Engine::encode(&base64::engine::general_purpose::STANDARD, data)
}

/// What `std::path::Path::parent` gives for `path`: the path without its
/// final component, or nothing where the path ends in a root or is empty.
pub uninterp spec fn parent_of(path: Seq<char>) -> Option<Seq<char>>;

/// Calls `std::path::Path::parent` on `path` and hands the parent back as
/// text.
#[verifier::external_body]
fn parent_path(path: &str) -> (parent: Option<String>)
    ensures
        match parent {
            Some(p) => parent_of(path@) == Some(p@),
            None => parent_of(path@) is None,
        },
{
    match std::path::Path::new(path).parent() {
        Some(p) => Some(p.to_string_lossy().into_owned()),
        None => None,
    }
}

/// The directory that a listing of `base` links to as its parent: none for
/// the root, which is the empty path.
pub open spec fn parent_link(base: Seq<char>) -> Option<Seq<char>> {
    if base.len() == 0 {
        None
    } else {
        parent_of(base)
    }
}

/// The address of the entry `name` in the directory `base`: under `/file`,
/// with one slash between the parts unless `base` brings its own.
pub open spec fn entry_href(base: Seq<char>, name: Seq<char>) -> Seq<char> {
    "/file"@ + (if base.len() > 0 && base[0] == '/' {
        Seq::<char>::empty()
    } else {
        "/"@
    }) + base + (if base.len() == 0 || base.last() == '/' {
        Seq::<char>::empty()
    } else {
        "/"@
    }) + name
}

/// The list item of one entry: a link with the entry's name, and behind the
/// name an inline PNG picture where `picture` holds the picture's base64
/// text.
pub open spec fn item_markup(base: Seq<char>, name: Seq<char>, picture: Option<Seq<char>>) -> Seq<
    char,
> {
    match picture {
        Some(text) => "<li><a href=\""@ + entry_href(base, name) + "\">"@ + name
            + "<img src=\"data:image/png;base64,"@ + text + "\" height=\"200\" /></a></li>"@,
        None => "<li><a href=\""@ + entry_href(base, name) + "\">"@ + name + "</a></li>"@,
    }
}

/// The base64 text of a preview, where there is one.
pub open spec fn picture_text(preview: Option<Seq<u8>>) -> Option<Seq<char>> {
    match preview {
        Some(png) => Some(base64_text(png)),
        None => None,
    }
}

/// The list item of one entry: a link with the entry's name, and with its
/// preview as an inline PNG where it has one.
pub open spec fn item_html(base: Seq<char>, name: Seq<char>, preview: Option<Seq<u8>>) -> Seq<
    char,
> {
    item_markup(base, name, picture_text(preview))
}

/// The previews handed to a listing, as plain values.
pub open spec fn previews(thumbnails: Seq<Option<Vec<u8>>>) -> Seq<Option<Seq<u8>>> {
    thumbnails.map_values(
        |t: Option<Vec<u8>>|
            match t {
                Some(png) => Some(png@),
                None => None,
            },
    )
}

/// The preview that entry `i` is shown with: the one handed in for it, if
/// the entry is an image or a video and the preview is short enough to embed.
pub open spec fn preview_of(
    entries: Seq<EntryView>,
    thumbnails: Seq<Option<Seq<u8>>>,
    i: int,
) -> Option<Seq<u8>> {
    if 0 <= i < thumbnails.len() && entries[i].mime_kind.previewable() && thumbnails[i] is Some
        && embeddable(thumbnails[i]->0) {
        thumbnails[i]
    } else {
        None
    }
}

/// The list items of the entries in `order`, one after the other.
pub open spec fn items_html(
    base: Seq<char>,
    entries: Seq<EntryView>,
    thumbnails: Seq<Option<Seq<u8>>>,
    order: Seq<usize>,
) -> Seq<char>
    decreases order.len(),
{
    if order.len() == 0 {
        Seq::<char>::empty()
    } else {
        items_html(base, entries, thumbnails, order.drop_last()) + item_html(
            base,
            entries[order.last() as int].name,
            preview_of(entries, thumbnails, order.last() as int),
        )
    }
}

/// The link to the parent directory, where there is one.
pub open spec fn parent_html(parent: Option<Seq<char>>) -> Seq<char> {
    match parent {
        Some(p) => "<li><a href=\"/file/"@ + p + "\">..</a></li><li></li>"@,
        None => Seq::<char>::empty(),
    }
}

/// The page that lists the directory `base`: a heading, the link to the
/// parent directory, and the entries that are not hidden, in listing order.
pub open spec fn listing_page(
    base: Seq<char>,
    entries: Seq<EntryView>,
    thumbnails: Seq<Option<Seq<u8>>>,
) -> Seq<char> {
    "<!DOCTYPE html><html><head><title>Directory Listing</title></head><body>"@
        + "<h1>Directory: "@ + base + "</h1>"@ + "<ul>"@ + parent_html(parent_link(base))
        + items_html(base, entries, thumbnails, display_order(names(entries)))
        + "</ul></body></html>"@
}

/// Appends the address of the entry `name` in the directory `base`.
fn push_href(out: &mut String, base: &str, name: &str)
    ensures
        final(out)@ == old(out)@ + entry_href(base@, name@),
{
    let base_chars = chars_of(base);
    out.append("/file");
    if !(base_chars.len() > 0 && base_chars[0] == '/') {
        out.append("/");
    }
    out.append(base);
    if !(base_chars.len() == 0 || base_chars[base_chars.len() - 1] == '/') {
        out.append("/");
    }
    out.append(name);
    assert(out@ =~= old(out)@ + entry_href(base@, name@));
}

/// Writes the list item of the entry `name` in the directory `base`, with
/// an inline PNG picture where `picture` holds the picture's base64 text.
pub fn list_item(base: &str, name: &str, picture: Option<&str>) -> (item: String)
    ensures
        item@ == item_markup(
            base@,
            name@,
            match picture {
                Some(text) => Some(text@),
                None => None,
            },
        ),
{
    let mut item = String::new();
    item.append("<li><a href=\"");
    push_href(&mut item, base, name);
    item.append("\">");
    item.append(name);
    match picture {
        Some(text) => {
            item.append("<img src=\"data:image/png;base64,");
            item.append(text);
            item.append("\" height=\"200\" /></a></li>");
            assert(item@ =~= item_markup(base@, name@, Some(text@)));
        },
        None => {
            item.append("</a></li>");
            assert(item@ =~= item_markup(base@, name@, None));
        },
    }
    item
}

/// Writes the list items that link to the parent directory `parent`, or
/// nothing where there is none.
pub fn parent_item(parent: Option<&str>) -> (item: String)
    ensures
        item@ == parent_html(
            match parent {
                Some(p) => Some(p@),
                None => None,
            },
        ),
{
    let mut item = String::new();
    match parent {
        Some(p) => {
            item.append("<li><a href=\"/file/");
            item.append(p);
            item.append("\">..</a></li><li></li>");
            assert(item@ =~= parent_html(Some(p@)));
        },
        None => {},
    }
    item
}

/// The preview to show entry `i` with, if any.
fn preview_for<'a>(
    entries: &Vec<FileEntry>,
    thumbnails: &'a Vec<Option<Vec<u8>>>,
    i: usize,
) -> (preview: Option<&'a Vec<u8>>)
    requires
        i < entries.len(),
    ensures
        match preview {
            Some(png) => preview_of(views(entries@), previews(thumbnails@), i as int) == Some(
                png@,
            ),
            None => preview_of(views(entries@), previews(thumbnails@), i as int) is None,
        },
        preview matches Some(png) ==> embeddable(png@),
{
    if i < thumbnails.len() && entries[i].mime_kind.wants_preview() {
        match &thumbnails[i] {
            Some(png) => {
                if png.len() <= usize::MAX / 4 {
                    Some(png)
                } else {
                    None
                }
            },
            None => None,
        }
    } else {
        None
    }
}

/// Renders the listing of the directory `base_path` as one HTML page.
///
/// Hidden entries are left out; the others are shown sorted by name. An
/// image or video whose position in `thumbnails` holds a preview is shown
/// with it, as an inline PNG; every other entry is a plain link.
pub fn render(entries: &Vec<FileEntry>, base_path: &str, thumbnails: &Vec<Option<Vec<u8>>>) -> (html:
    String)
    ensures
        html@ == listing_page(base_path@, views(entries@), previews(thumbnails@)),
{
    let order = listing_order(entries);
    let mut out = String::new();
    out.append("<!DOCTYPE html><html><head><title>Directory Listing</title></head><body>");
    out.append("<h1>Directory: ");
    out.append(base_path);
    out.append("</h1>");
    out.append("<ul>");
    let parent = if base_path.is_empty() {
        None
    } else {
        parent_path(base_path)
    };
    let link = match &parent {
        Some(p) => parent_item(Some(p.as_str())),
        None => parent_item(None),
    };
    out.append(link.as_str());
    let ghost head = out@;
    assert(head =~= "<!DOCTYPE html><html><head><title>Directory Listing</title></head><body>"@
        + "<h1>Directory: "@ + base_path@ + "</h1>"@ + "<ul>"@ + parent_html(
        parent_link(base_path@),
    ));
    let ghost all = views(entries@);
    let ghost shown = previews(thumbnails@);
    let mut k: usize = 0;
    while k < order.len()
        invariant
            k <= order.len(),
            all == views(entries@),
            shown == previews(thumbnails@),
            is_listing_order(names(all), entries@.len(), order@),
            out@ == head + items_html(base_path@, all, shown, order@.take(k as int)),
        decreases order.len() - k,
    {
        let i: usize = order[k];
        let preview = preview_for(entries, thumbnails, i);
        assert(order@.take(k + 1).drop_last() =~= order@.take(k as int));
        let item = match preview {
            Some(png) => {
                let text = encode_base64(png.as_slice());
                list_item(base_path, entries[i].name.as_str(), Some(text.as_str()))
            },
            None => list_item(base_path, entries[i].name.as_str(), None),
        };
        out.append(item.as_str());
        assert(out@ =~= head + items_html(base_path@, all, shown, order@.take(k + 1)));
        k = k + 1;
    }
    assert(order@.take(order.len() as int) =~= order@);
    out.append("</ul></body></html>");
    assert(out@ =~= listing_page(base_path@, all, shown));
    out
}

/// The list items of listed entries read no entries but those.
proof fn lemma_items_read_listed_entries(
    base: Seq<char>,
    a: Seq<EntryView>,
    b: Seq<EntryView>,
    thumbnails: Seq<Option<Seq<u8>>>,
    order: Seq<usize>,
)
    requires
        forall|k: int| 0 <= k < order.len() ==> a[#[trigger] order[k] as int] == b[order[k] as int],
    ensures
        items_html(base, a, thumbnails, order) == items_html(base, b, thumbnails, order),
    decreases order.len(),
{
    if order.len() > 0 {
        let front = order.drop_last();
        assert forall|k: int| 0 <= k < front.len() implies a[#[trigger] front[k] as int]
            == b[front[k] as int] by {
            assert(front[k] == order[k]);
        }
        lemma_items_read_listed_entries(base, a, b, thumbnails, front);
        assert(a[order[order.len() - 1] as int] == b[order[order.len() - 1] as int]);
    }
}

/// A hidden entry never shows: the page of a directory is the same with it
/// as without it.
pub proof fn lemma_hidden_entry_leaves_page_unchanged(
    base: Seq<char>,
    entries: Seq<EntryView>,
    thumbnails: Seq<Option<Seq<u8>>>,
    hidden: EntryView,
)
    requires
        is_hidden(hidden.name),
        entries.len() < usize::MAX,
    ensures
        listing_page(base, entries.push(hidden), thumbnails) == listing_page(
            base,
            entries,
            thumbnails,
        ),
{
    let with = entries.push(hidden);
    let n = entries.len();
    assert(names(with) =~= names(entries).push(hidden.name));
    lemma_order_reads_prefix(names(with), names(entries), n);
    assert(display_order(names(with)) == display_order(names(entries)));
    let order = display_order(names(entries));
    lemma_order_of_prefix(names(entries), n);
    assert forall|k: int| 0 <= k < order.len() implies with[#[trigger] order[k] as int]
        == entries[order[k] as int] by {}
    lemma_items_read_listed_entries(base, with, entries, thumbnails, order);
}

/// An image or a video that a preview is handed in for is shown with it:
/// its list item holds, behind the name, an inline PNG whose address is the
/// `data:` address of the preview's base64 text. This holds of every
/// preview that is short enough to embed.
pub proof fn lemma_previewed_entry_shows_its_picture(
    base: Seq<char>,
    entries: Seq<EntryView>,
    thumbnails: Seq<Option<Seq<u8>>>,
    i: int,
    png: Seq<u8>,
)
    requires
        0 <= i < entries.len(),
        i < thumbnails.len(),
        entries[i].mime_kind.previewable(),
        thumbnails[i] == Some(png),
        embeddable(png),
    ensures
        item_html(base, entries[i].name, preview_of(entries, thumbnails, i)) == "<li><a href=\""@
            + entry_href(base, entries[i].name) + "\">"@ + entries[i].name
            + "<img src=\"data:image/png;base64,"@ + base64_text(png)
            + "\" height=\"200\" /></a></li>"@,
{
}

/// The page holds, between its head and its foot, the list item of each
/// entry of the listing order, one after the other: the item of the entry at
/// position `k` of the order follows the items of those before it.
pub proof fn lemma_items_follow_the_order(
    base: Seq<char>,
    entries: Seq<EntryView>,
    thumbnails: Seq<Option<Seq<u8>>>,
    order: Seq<usize>,
    k: int,
)
    requires
        0 <= k < order.len(),
    ensures
        items_html(base, entries, thumbnails, order.take(k + 1)) == items_html(
            base,
            entries,
            thumbnails,
            order.take(k),
        ) + item_html(
            base,
            entries[order[k] as int].name,
            preview_of(entries, thumbnails, order[k] as int),
        ),
        items_html(base, entries, thumbnails, order.take(k)).is_prefix_of(
            items_html(base, entries, thumbnails, order),
        ),
    decreases order.len() - k,
{
    assert(order.take(k + 1).drop_last() =~= order.take(k));
    let upto = items_html(base, entries, thumbnails, order.take(k));
    let next = items_html(base, entries, thumbnails, order.take(k + 1));
    let all = items_html(base, entries, thumbnails, order);
    if k + 1 == order.len() {
        assert(order.take(k + 1) =~= order);
        assert(upto =~= all.subrange(0, upto.len() as int));
    } else {
        lemma_items_follow_the_order(base, entries, thumbnails, order, k + 1);
        assert(next.is_prefix_of(all));
        assert(upto =~= next.subrange(0, upto.len() as int));
        assert(upto =~= all.subrange(0, upto.len() as int));
    }
}

/// Whether `b` holds the entries of `a` in another order: entry `j` of `b`
/// is entry `to[j]` of `a`, and each entry of `a` is taken once.
pub open spec fn is_reordering(a: Seq<EntryView>, b: Seq<EntryView>, to: Seq<int>) -> bool {
    &&& a.len() == b.len() == to.len()
    &&& forall|j: int| 0 <= j < to.len() ==> 0 <= #[trigger] to[j] < a.len() && b[j] == a[to[j]]
    &&& forall|j: int, l: int| 0 <= j < l < to.len() ==> #[trigger] to[j] != #[trigger] to[l]
    &&& forall|i: int|
        #![trigger a[i]]
        0 <= i < a.len() ==> exists|j: int| 0 <= j < to.len() && #[trigger] to[j] == i
}

/// Whether no two of the entries bear the same name, as in a directory.
pub open spec fn names_differ(entries: Seq<EntryView>) -> bool {
    forall|i: int, j: int|
        0 <= i < j < entries.len() ==> (#[trigger] entries[i]).name != (#[trigger] entries[j]).name
}

/// The list items of two runs of entries are the same where the runs hold
/// the same entries with the same previews, position by position.
proof fn lemma_items_of_same_entries(
    base: Seq<char>,
    a: Seq<EntryView>,
    ta: Seq<Option<Seq<u8>>>,
    oa: Seq<usize>,
    b: Seq<EntryView>,
    tb: Seq<Option<Seq<u8>>>,
    ob: Seq<usize>,
)
    requires
        oa.len() == ob.len(),
        forall|k: int|
            0 <= k < oa.len() ==> a[#[trigger] oa[k] as int] == b[#[trigger] ob[k] as int]
                && preview_of(a, ta, oa[k] as int) == preview_of(b, tb, ob[k] as int),
    ensures
        items_html(base, a, ta, oa) == items_html(base, b, tb, ob),
    decreases oa.len(),
{
    if oa.len() > 0 {
        let fa = oa.drop_last();
        let fb = ob.drop_last();
        assert forall|k: int| 0 <= k < fa.len() implies a[#[trigger] fa[k] as int]
            == b[#[trigger] fb[k] as int] && preview_of(a, ta, fa[k] as int) == preview_of(
            b,
            tb,
            fb[k] as int,
        ) by {
            assert(fa[k] == oa[k] && fb[k] == ob[k]);
        }
        lemma_items_of_same_entries(base, a, ta, fa, b, tb, fb);
        let top = oa.len() - 1;
        assert(a[oa[top] as int] == b[ob[top] as int]);
    }
}

/// The page of a directory does not depend on the order in which its
/// entries were read: entries with differing names, handed over in another
/// order with their previews, give the same page.
pub proof fn lemma_page_ignores_the_order_read(
    base: Seq<char>,
    a: Seq<EntryView>,
    ta: Seq<Option<Seq<u8>>>,
    b: Seq<EntryView>,
    tb: Seq<Option<Seq<u8>>>,
    to: Seq<int>,
)
    requires
        is_reordering(a, b, to),
        names_differ(a),
        a.len() <= usize::MAX,
        ta.len() == a.len(),
        tb.len() == b.len(),
        forall|j: int| 0 <= j < to.len() ==> tb[j] == ta[#[trigger] to[j]],
    ensures
        listing_page(base, b, tb) == listing_page(base, a, ta),
{
    let n = a.len();
    let na = names(a);
    let nb = names(b);
    let oa = display_order(na);
    let ob = display_order(nb);
    lemma_order_of_prefix(na, n);
    lemma_order_of_prefix(nb, n);
    let moved = Seq::new(ob.len(), |k: int| to[ob[k] as int] as usize);
    assert forall|k: int| 0 <= k < moved.len() implies (#[trigger] moved[k]) < n && !is_hidden(
        na[moved[k] as int],
    ) by {
        assert(ob[k] < n);
        assert(nb[ob[k] as int] == na[to[ob[k] as int]]);
    }
    assert forall|i: int| 0 <= i < n && !is_hidden(#[trigger] na[i]) implies exists|k: int|
        0 <= k < moved.len() && #[trigger] moved[k] == i by {
        assert(na[i] == a[i].name);
        let j = choose|j: int| 0 <= j < to.len() && #[trigger] to[j] == i;
        assert(nb[j] == na[i]);
        let k = choose|k: int| 0 <= k < ob.len() && #[trigger] ob[k] == j;
        assert(moved[k] == i);
    }
    assert forall|k: int, l: int| 0 <= k < l < moved.len() implies listed_before(
        na,
        #[trigger] moved[k] as int,
        #[trigger] moved[l] as int,
    ) by {
        let jk = ob[k] as int;
        let jl = ob[l] as int;
        assert(listed_before(nb, jk, jl));
        assert(nb[jk] == na[to[jk]] && nb[jl] == na[to[jl]]);
        if bytes_le(sort_key(na[to[jl]]), sort_key(na[to[jk]])) {
            lemma_bytes_le_antisymmetric(sort_key(na[to[jk]]), sort_key(na[to[jl]]));
            vstd::utf8::encode_utf8_decode_utf8(na[to[jk]]);
            vstd::utf8::encode_utf8_decode_utf8(na[to[jl]]);
            assert(na[to[jk]] == na[to[jl]]);
            assert(jk < jl);
            assert(to[jk] != to[jl]);
            if to[jk] < to[jl] {
                assert(a[to[jk]].name != a[to[jl]].name);
            } else {
                assert(a[to[jl]].name != a[to[jk]].name);
            }
        }
    }
    lemma_listing_order_is_unique(na, n, moved, oa);
    assert forall|k: int| 0 <= k < ob.len() implies b[#[trigger] ob[k] as int]
        == a[#[trigger] oa[k] as int] && preview_of(b, tb, ob[k] as int) == preview_of(
        a,
        ta,
        oa[k] as int,
    ) by {
        assert(oa[k] == moved[k]);
        assert(ob[k] < n);
    }
    lemma_items_of_same_entries(base, b, tb, ob, a, ta, oa);
}

} // verus!
