//! The embedded browser's data: the page snapshot handed to agents and the
//! per-profile bookmark list.
use vstd::prelude::*;
use crate::text::{str_eq, to_string};
use crate::paths::{data_dir, join_path, path_join};

verus! {

// ------------------------------------------------------------------
// Page snapshot
// ------------------------------------------------------------------

/// A single interactable node of a snapshot.
#[derive(Debug, Clone, PartialEq)]
pub struct DomNode {
    /// Stable per-snapshot reference id, e.g. `"e1"`; written `ref` on the
    /// wire and stamped on the live DOM as `data-flowmux-ref`.
    pub ref_id: String,
    /// Lower-cased HTML tag: `"a"`, `"button"`, `"input"`, …
    pub tag: String,
    /// ARIA role if explicit, otherwise the tag.
    pub role: String,
    /// Best-effort accessible name.
    pub name: String,
    /// `[left, top, width, height]` in CSS pixels relative to the viewport.
    pub bbox: [i32; 4],
}

/// Page metadata and the flat list of interactable nodes.
#[derive(Debug, Clone, PartialEq)]
pub struct DomSnapshot {
    pub url: String,
    pub title: String,
    pub nodes: Vec<DomNode>,
}

/// Index of the first node of `nodes` whose ref is `r`, if any.
pub open spec fn first_ref_index(nodes: Seq<DomNode>, r: Seq<char>) -> Option<int> {
    if exists|i: int| 0 <= i < nodes.len() && (#[trigger] nodes[i]).ref_id@ == r {
        Some(
            choose|i: int|
                0 <= i < nodes.len() && (#[trigger] nodes[i]).ref_id@ == r && forall|j: int|
                    0 <= j < i ==> (#[trigger] nodes[j]).ref_id@ != r,
        )
    } else {
        None
    }
}

/// The smallest index carrying ref `r` exists whenever some index does.
proof fn lemma_first_ref_exists(nodes: Seq<DomNode>, r: Seq<char>, k: int)
    requires
        0 <= k < nodes.len(),
        nodes[k].ref_id@ == r,
    ensures
        exists|i: int|
            0 <= i < nodes.len() && (#[trigger] nodes[i]).ref_id@ == r && forall|j: int|
                0 <= j < i ==> (#[trigger] nodes[j]).ref_id@ != r,
    decreases k,
{
    if exists|j: int| 0 <= j < k && (#[trigger] nodes[j]).ref_id@ == r {
        let j = choose|j: int| 0 <= j < k && (#[trigger] nodes[j]).ref_id@ == r;
        lemma_first_ref_exists(nodes, r, j);
    } else {
        assert(forall|j: int| 0 <= j < k ==> (#[trigger] nodes[j]).ref_id@ != r);
    }
}

impl DomSnapshot {
    /// A snapshot of `url` with no title and no nodes.
    pub fn empty(url: &str) -> (s: Self)
        ensures
            s.url@ == url@,
            s.title@ == Seq::<char>::empty(),
            s.nodes@.len() == 0,
    {
        DomSnapshot { url: to_string(url), title: String::new(), nodes: Vec::new() }
    }

    /// The first node whose ref id is `r`.
    pub fn find(&self, r: &str) -> (found: Option<&DomNode>)
        ensures
            match first_ref_index(self.nodes@, r@) {
                Some(i) => found == Some(&self.nodes@[i]),
                None => found is None,
            },
    {
        let mut i: usize = 0;
        while i < self.nodes.len()
            invariant
                i <= self.nodes@.len(),
                forall|j: int| 0 <= j < i ==> (#[trigger] self.nodes@[j]).ref_id@ != r@,
            decreases self.nodes@.len() - i,
        {
            if str_eq(self.nodes[i].ref_id.as_str(), r) {
                proof {
                    lemma_first_ref_exists(self.nodes@, r@, i as int);
                    let k = first_ref_index(self.nodes@, r@)->0;
                    assert(self.nodes@[k].ref_id@ == r@);
                    if k < i {
                        assert(false);
                    }
                    if k > i {
                        assert(self.nodes@[i as int].ref_id@ != r@);
                    }
                }
                return Some(&self.nodes[i]);
            }
            i = i + 1;
        }
        None
    }
}

// ------------------------------------------------------------------
// Bookmarks
// ------------------------------------------------------------------

#[derive(Clone, Debug, PartialEq, Eq)]
pub struct Bookmark {
    pub title: String,
    pub url: String,
}

pub struct BookmarkView {
    pub title: Seq<char>,
    pub url: Seq<char>,
}

impl View for Bookmark {
    type V = BookmarkView;

    open spec fn view(&self) -> BookmarkView {
        BookmarkView { title: self.title@, url: self.url@ }
    }
}

pub open spec fn bookmarks_view(v: Seq<Bookmark>) -> Seq<BookmarkView> {
    v.map_values(|b: Bookmark| b@)
}

/// `s` without the bookmarks whose URL is `url`, order kept.
pub open spec fn without_url(s: Seq<BookmarkView>, url: Seq<char>) -> Seq<BookmarkView>
    decreases s.len(),
{
    if s.len() == 0 {
        Seq::empty()
    } else if s.last().url == url {
        without_url(s.drop_last(), url)
    } else {
        without_url(s.drop_last(), url).push(s.last())
    }
}

/// The list after adding `b`: `b` first, then every other bookmark whose URL
/// differs from `b`'s, in their previous order.
pub open spec fn added(s: Seq<BookmarkView>, b: BookmarkView) -> Seq<BookmarkView> {
    seq![b] + without_url(s, b.url)
}

/// A page that can be bookmarked: it has a URL, and it is not the blank
/// page.
pub open spec fn bookmarkable(url: Seq<char>) -> bool {
    url.len() > 0 && url != "about:blank"@
}

/// Whether the page at `url` can be bookmarked.
pub fn can_bookmark(url: &str) -> (r: bool)
    ensures
        r == bookmarkable(url@),
{
    !(crate::text::chars_of(url).len() == 0 || str_eq(url, "about:blank"))
}

impl Bookmark {
    /// A field-by-field copy.
    pub fn clone_bookmark(&self) -> (r: Bookmark)
        ensures
            r@ == self@,
    {
        Bookmark { title: to_string(self.title.as_str()), url: to_string(self.url.as_str()) }
    }
}

/// A copy of `v`.
fn clone_bookmarks(v: &Vec<Bookmark>) -> (r: Vec<Bookmark>)
    ensures
        bookmarks_view(r@) == bookmarks_view(v@),
{
    let mut out: Vec<Bookmark> = Vec::new();
    let mut i: usize = 0;
    while i < v.len()
        invariant
            i <= v@.len(),
            bookmarks_view(out@) == bookmarks_view(v@.take(i as int)),
        decreases v@.len() - i,
    {
        let ghost before = out@;
        let c = v[i].clone_bookmark();
        out.push(c);
        assert(v@.take(i + 1) =~= v@.take(i as int).push(v@[i as int]));
        assert(bookmarks_view(out@) =~= bookmarks_view(before).push(c@));
        assert(bookmarks_view(v@.take(i + 1)) =~= bookmarks_view(v@.take(i as int)).push(v@[i as int]@));
        i = i + 1;
    }
    assert(v@.take(v@.len() as int) =~= v@);
    out
}

/// Appends to `out` the bookmarks of `v` whose URL is not `url`.
fn push_without_url(out: &mut Vec<Bookmark>, v: &Vec<Bookmark>, url: &str)
    ensures
        bookmarks_view(final(out)@) == bookmarks_view(old(out)@) + without_url(bookmarks_view(v@), url@),
{
    let ghost start = bookmarks_view(out@);
    let mut i: usize = 0;
    while i < v.len()
        invariant
            i <= v@.len(),
            bookmarks_view(out@) == start + without_url(bookmarks_view(v@.take(i as int)), url@),
        decreases v@.len() - i,
    {
        let ghost pre = bookmarks_view(v@.take(i as int));
        let ghost post = bookmarks_view(v@.take(i + 1));
        assert(v@.take(i + 1) =~= v@.take(i as int).push(v@[i as int]));
        assert(post =~= pre.push(v@[i as int]@));
        assert(post.drop_last() =~= pre);
        assert(post.last() == v@[i as int]@);
        if !str_eq(v[i].url.as_str(), url) {
            let ghost before = out@;
            let c = v[i].clone_bookmark();
            out.push(c);
            assert(bookmarks_view(out@) =~= bookmarks_view(before).push(c@));
            assert(bookmarks_view(out@) =~= start + without_url(post, url@));
        }
        i = i + 1;
    }
    assert(v@.take(v@.len() as int) =~= v@);
}

/// Why the bookmarks could not be had; the causes that are not values of
/// this library are held as their messages.
#[derive(Debug, Clone, PartialEq, Eq)]
pub enum BookmarkError {
    /// The user has no data directory.
    NoDataDir,
    /// Reading or writing the file failed.
    Io(String),
    /// The file holds no bookmark list.
    Invalid(String),
}

/// `<data>/flowmux/browser/<profile>/bookmarks.json`.
pub open spec fn bookmarks_file(data: Seq<char>, profile: Seq<char>) -> Seq<char> {
    path_join(path_join(path_join(path_join(data, "flowmux"@), "browser"@), profile), "bookmarks.json"@)
}

/// The bookmarks file of profile `profile` under the data directory `data`.
pub fn bookmarks_path(data: &str, profile: &str) -> (r: String)
    ensures
        r@ == bookmarks_file(data@, profile@),
{
    let a = join_path(data, "flowmux");
    let b = join_path(a.as_str(), "browser");
    let c = join_path(b.as_str(), profile);
    join_path(c.as_str(), "bookmarks.json")
}

/// The bookmarks of one browser profile, as read from its JSON file; the
/// file itself is read and written by the caller.
#[derive(Clone, Debug)]
pub struct BookmarkRepository {
    path: String,
    bookmarks: Vec<Bookmark>,
}

impl BookmarkRepository {
    pub closed spec fn path_view(&self) -> Seq<char> {
        self.path@
    }

    pub closed spec fn contents(&self) -> Seq<BookmarkView> {
        bookmarks_view(self.bookmarks@)
    }

    /// The repository of profile `profile` (by its slug) under the user's
    /// data directory, before anything is loaded; `NoDataDir` when the user
    /// has none.
    pub fn for_profile(profile: &str) -> (r: Result<Self, BookmarkError>)
        ensures
            match r {
                Ok(repo) => repo.contents().len() == 0 && exists|d: Seq<char>|
                    repo.path_view() == bookmarks_file(d, profile@),
                Err(e) => e == BookmarkError::NoDataDir,
            },
    {
        match data_dir() {
            Some(d) => {
                let path = bookmarks_path(d.as_str(), profile);
                let r = BookmarkRepository { path, bookmarks: Vec::new() };
                assert(r.contents() =~= Seq::<BookmarkView>::empty());
                Ok(r)
            },
            None => Err(BookmarkError::NoDataDir),
        }
    }

    /// The repository stored at `path`, holding the bookmarks `loaded` from it.
    pub fn from_path(path: &str, loaded: Vec<Bookmark>) -> (r: Self)
        ensures
            r.path_view() == path@,
            r.contents() == bookmarks_view(loaded@),
    {
        BookmarkRepository { path: to_string(path), bookmarks: loaded }
    }

    /// Where the bookmarks are stored.
    pub fn path(&self) -> (r: &str)
        ensures
            r@ == self.path_view(),
    {
        self.path.as_str()
    }

    /// The current bookmarks, most recent first.
    pub fn bookmarks(&self) -> (r: &Vec<Bookmark>)
        ensures
            bookmarks_view(r@) == self.contents(),
    {
        &self.bookmarks
    }

    /// Adds `bookmark` in front; an older bookmark of the same URL is
    /// replaced. Returns the new list, to be saved.
    pub fn add(&mut self, bookmark: Bookmark) -> (r: Vec<Bookmark>)
        ensures
            final(self).path_view() == old(self).path_view(),
            final(self).contents() == added(old(self).contents(), bookmark@),
            bookmarks_view(r@) == final(self).contents(),
    {
        let mut next: Vec<Bookmark> = Vec::new();
        let ghost b = bookmark@;
        let url = to_string(bookmark.url.as_str());
        next.push(bookmark);
        assert(bookmarks_view(next@) =~= seq![b]);
        push_without_url(&mut next, &self.bookmarks, url.as_str());
        self.bookmarks = next;
        clone_bookmarks(&self.bookmarks)
    }

    /// Removes every bookmark of `url`. Returns the new list, to be saved.
    pub fn remove(&mut self, url: &str) -> (r: Vec<Bookmark>)
        ensures
            final(self).path_view() == old(self).path_view(),
            final(self).contents() == without_url(old(self).contents(), url@),
            bookmarks_view(r@) == final(self).contents(),
    {
        let mut next: Vec<Bookmark> = Vec::new();
        push_without_url(&mut next, &self.bookmarks, url);
        assert(bookmarks_view(next@) =~= without_url(bookmarks_view(self.bookmarks@), url@));
        self.bookmarks = next;
        clone_bookmarks(&self.bookmarks)
    }
}

// ------------------------------------------------------------------
// Laws
// ------------------------------------------------------------------

/// Filtering out a URL leaves no bookmark of that URL, and keeps every
/// bookmark of another URL.
pub proof fn lemma_without_url_members(s: Seq<BookmarkView>, url: Seq<char>)
    ensures
        forall|i: int| 0 <= i < without_url(s, url).len() ==> (#[trigger] without_url(s, url)[i]).url != url,
        forall|b: BookmarkView| #[trigger] without_url(s, url).contains(b) <==> s.contains(b) && b.url != url,
    decreases s.len(),
{
    if s.len() > 0 {
        let d = s.drop_last();
        lemma_without_url_members(d, url);
        let r = without_url(s, url);
        let rd = without_url(d, url);
        assert forall|i: int| 0 <= i < r.len() implies (#[trigger] r[i]).url != url by {
            if s.last().url != url {
                assert(r == rd.push(s.last()));
                if i < rd.len() {
                    assert(r[i] == rd[i]);
                }
            }
        }
        assert forall|b: BookmarkView| #[trigger] r.contains(b) <==> s.contains(b) && b.url != url by {
            if s.last().url != url {
                assert(r == rd.push(s.last()));
                if r.contains(b) {
                    let k = choose|k: int| 0 <= k < r.len() && r[k] == b;
                    if k < rd.len() {
                        assert(rd[k] == b);
                        assert(rd.contains(b));
                        assert(d.contains(b));
                        let m = choose|m: int| 0 <= m < d.len() && d[m] == b;
                        assert(s[m] == d[m]);
                    } else {
                        assert(s[s.len() - 1] == b);
                    }
                }
                if s.contains(b) && b.url != url {
                    let k = choose|k: int| 0 <= k < s.len() && s[k] == b;
                    if k < d.len() {
                        assert(d[k] == b);
                        assert(d.contains(b));
                        assert(rd.contains(b));
                        let m = choose|m: int| 0 <= m < rd.len() && rd[m] == b;
                        assert(r[m] == b);
                    } else {
                        assert(r[rd.len() as int] == b);
                    }
                }
            } else {
                assert(r == rd);
                if s.contains(b) && b.url != url {
                    let k = choose|k: int| 0 <= k < s.len() && s[k] == b;
                    assert(k < d.len());
                    assert(d[k] == b);
                    assert(d.contains(b));
                }
                if r.contains(b) {
                    assert(d.contains(b));
                    let m = choose|m: int| 0 <= m < d.len() && d[m] == b;
                    assert(s[m] == d[m]);
                }
            }
        }
    }
}

/// Removing a URL twice is removing it once.
pub proof fn lemma_without_url_idempotent(s: Seq<BookmarkView>, url: Seq<char>)
    ensures
        without_url(without_url(s, url), url) == without_url(s, url),
    decreases s.len(),
{
    if s.len() > 0 {
        let d = s.drop_last();
        lemma_without_url_idempotent(d, url);
        if s.last().url != url {
            let rd = without_url(d, url);
            assert(without_url(s, url).drop_last() =~= rd);
        }
    }
}

/// After an add, the new bookmark is first and is the only one of its URL.
pub proof fn lemma_add_puts_bookmark_first_and_once(s: Seq<BookmarkView>, b: BookmarkView)
    ensures
        added(s, b)[0] == b,
        forall|i: int| 1 <= i < added(s, b).len() ==> (#[trigger] added(s, b)[i]).url != b.url,
{
    lemma_without_url_members(s, b.url);
    let r = added(s, b);
    let w = without_url(s, b.url);
    assert forall|i: int| 1 <= i < r.len() implies (#[trigger] r[i]).url != b.url by {
        assert(r[i] == w[i - 1]);
    }
}

/// Adding a bookmark of a URL already present replaces it: adding `b1` and
/// then `b2` of the same URL is adding `b2` alone.
pub proof fn lemma_add_replaces_same_url(s: Seq<BookmarkView>, b1: BookmarkView, b2: BookmarkView)
    requires
        b1.url == b2.url,
    ensures
        added(added(s, b1), b2) == added(s, b2),
{
    let w = without_url(s, b1.url);
    lemma_without_url_idempotent(s, b1.url);
    lemma_without_url_prepend(w, b1, b2.url);
}

/// Filtering `seq![b] + s` by `b`'s URL is filtering `s`.
proof fn lemma_without_url_prepend(s: Seq<BookmarkView>, b: BookmarkView, url: Seq<char>)
    requires
        b.url == url,
    ensures
        without_url(seq![b] + s, url) == without_url(s, url),
    decreases s.len(),
{
    let t = seq![b] + s;
    if s.len() == 0 {
        assert(t.drop_last() =~= Seq::<BookmarkView>::empty());
        assert(t.last() == b);
        assert(without_url(t.drop_last(), url) == Seq::<BookmarkView>::empty());
    } else {
        assert(t.drop_last() =~= seq![b] + s.drop_last());
        assert(t.last() == s.last());
        lemma_without_url_prepend(s.drop_last(), b, url);
    }
}

/// Removing the URL just added gives the list as it was, less that URL.
pub proof fn lemma_remove_undoes_add(s: Seq<BookmarkView>, b: BookmarkView)
    ensures
        without_url(added(s, b), b.url) == without_url(s, b.url),
{
    lemma_without_url_prepend(without_url(s, b.url), b, b.url);
    lemma_without_url_idempotent(s, b.url);
}

} // verus!
