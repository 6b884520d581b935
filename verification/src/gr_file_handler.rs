//! From a request path to the file that answers it.
//!
//! Nothing here touches the disk. What stands at a path is looked up in a
//! `Disk`, the record of what was found at the paths that were looked at.

use crate::structs::error::Error;
use crate::structs::file::{lemma_mime_by_extension, mime_of, File, FileView};
use crate::text::{
    chars_of, lemma_split, lemma_split_append, lemma_split_whole, pieces, same_text, split, Span,
};
use vstd::prelude::*;
use vstd::string::*;

verus! {

/// What stands at a path on disk.
#[derive(Debug)]
pub enum Entry {
    /// Nothing.
    Absent,
    /// A directory.
    Directory,
    /// A file that holds these bytes.
    Regular(Vec<u8>),
}

/// What an `Entry` holds.
pub enum EntryView {
    Absent,
    Directory,
    Regular(Seq<u8>),
}

impl View for Entry {
    type V = EntryView;

    open spec fn view(&self) -> EntryView {
        match self {
            Entry::Absent => EntryView::Absent,
            Entry::Directory => EntryView::Directory,
            Entry::Regular(content) => EntryView::Regular(content@),
        }
    }
}

impl Clone for Entry {
    fn clone(&self) -> (copy: Self)
        ensures
            copy@ == self@,
    {
        match self {
            Entry::Absent => Entry::Absent,
            Entry::Directory => Entry::Directory,
            Entry::Regular(content) => Entry::Regular(content.clone()),
        }
    }
}

/// The map that a list of records stands for: a later record of a path
/// replaces an earlier one.
pub open spec fn map_of(records: Seq<(String, Entry)>) -> Map<Seq<char>, EntryView>
    decreases records.len(),
{
    if records.len() == 0 {
        Map::empty()
    } else {
        map_of(records.drop_last()).insert(records.last().0@, records.last().1@)
    }
}

/// What was found on disk, path by path. Its view maps each path that was
/// looked at to what stands there.
#[derive(Debug)]
pub struct Disk {
    records: Vec<(String, Entry)>,
}

impl View for Disk {
    type V = Map<Seq<char>, EntryView>;

    closed spec fn view(&self) -> Map<Seq<char>, EntryView> {
        map_of(self.records@)
    }
}

/// A path is recorded exactly when some record names it, and it then maps
/// to what the last such record holds.
proof fn lemma_map_of(records: Seq<(String, Entry)>, path: Seq<char>, from: int)
    requires
        0 <= from <= records.len(),
        forall|j: int| from <= j < records.len() ==> (#[trigger] records[j]).0@ != path,
    ensures
        from > 0 && records[from - 1].0@ == path ==> map_of(records).contains_key(path) && map_of(
            records,
        )[path] == records[from - 1].1@,
        from == 0 ==> !map_of(records).contains_key(path),
    decreases records.len(),
{
    if records.len() > from {
        assert(records[records.len() - 1].0@ != path);
        lemma_map_of(records.drop_last(), path, from);
    }
}

impl Disk {
    /// A disk of which nothing is known yet.
    pub fn new() -> (disk: Disk)
        ensures
            disk@ == Map::<Seq<char>, EntryView>::empty(),
    {
        Disk { records: Vec::new() }
    }

    /// Notes that `entry` stands at `path`, in place of what was noted there
    /// before.
    pub fn record(&mut self, path: String, entry: Entry)
        ensures
            final(self)@ == old(self)@.insert(path@, entry@),
    {
        proof {
            assert(self.records@.push((path, entry)).drop_last() =~= self.records@);
        }
        self.records.push((path, entry));
    }

    /// What was noted at `path`, if the path was looked at.
    pub fn find(&self, path: &str) -> (found: Option<&Entry>)
        ensures
            match found {
                Some(entry) => self@.contains_key(path@) && self@[path@] == entry@,
                None => !self@.contains_key(path@),
            },
    {
        let mut i: usize = self.records.len();
        while i > 0
            invariant
                i <= self.records.len(),
                forall|j: int| i <= j < self.records.len() ==> (#[trigger] self.records@[j]).0@
                    != path@,
            decreases i,
        {
            if same_text(self.records[i - 1].0.as_str(), path) {
                proof {
                    lemma_map_of(self.records@, path@, i as int);
                }
                return Some(&self.records[i - 1].1);
            }
            i -= 1;
        }
        proof {
            lemma_map_of(self.records@, path@, 0);
        }
        None
    }
}

/// What stands at `path` on a disk: what was noted there, and nothing where
/// nothing was noted.
pub open spec fn entry_at(disk: Map<Seq<char>, EntryView>, path: Seq<char>) -> EntryView {
    if disk.contains_key(path) {
        disk[path]
    } else {
        EntryView::Absent
    }
}

/// The segment that stands for the directory itself.
pub open spec fn here() -> Seq<char> {
    seq!['.']
}

/// The segment that stands for the directory above.
pub open spec fn above() -> Seq<char> {
    seq!['.', '.']
}

/// Walks the segments of a request path, starting at the root, and gives the
/// names passed on the way down to where the path ends. An empty segment and
/// `.` stay where they are, `..` goes back up by one name, and any other
/// segment goes down into that name. A path that would go up from the root
/// itself leads nowhere.
pub open spec fn descend(segments: Seq<Seq<char>>) -> Option<Seq<Seq<char>>>
    decreases segments.len(),
{
    if segments.len() == 0 {
        Some(Seq::empty())
    } else {
        match descend(segments.drop_last()) {
            None => None,
            Some(names) => {
                let segment = segments.last();
                if segment.len() == 0 || segment == here() {
                    Some(names)
                } else if segment == above() {
                    if names.len() == 0 {
                        None
                    } else {
                        Some(names.drop_last())
                    }
                } else {
                    Some(names.push(segment))
                }
            },
        }
    }
}

/// The path of `name` inside the directory `base`: the two with one `/`
/// between them, unless `base` is empty or brings its own.
pub open spec fn inside(base: Seq<char>, name: Seq<char>) -> Seq<char> {
    if base.len() == 0 || base.last() == '/' {
        base + name
    } else {
        base.push('/') + name
    }
}

/// The path reached from `base` by going down through `names` in turn.
pub open spec fn down(base: Seq<char>, names: Seq<Seq<char>>) -> Seq<char>
    decreases names.len(),
{
    if names.len() == 0 {
        base
    } else {
        inside(down(base, names.drop_last()), names.last())
    }
}

/// A name that a path may go down into: not empty, neither `.` nor `..`,
/// and without a `/`.
pub open spec fn is_name(segment: Seq<char>) -> bool {
    segment.len() > 0 && segment != here() && segment != above() && !segment.contains('/')
}

/// The place on disk that a request path stands for under `file_root`, or
/// `None` for a path that would leave the root.
pub open spec fn absolute_path(file_root: Seq<char>, path: Seq<char>) -> Option<Seq<char>> {
    match descend(split(path, '/')) {
        Some(names) => Some(down(file_root, names)),
        None => None,
    }
}

/// The last segment of a path: what follows its last `/`.
pub open spec fn final_segment(path: Seq<char>) -> Seq<char> {
    split(path, '/').last()
}

/// The index page of a directory.
pub open spec fn index_of(dir: Seq<char>) -> Seq<char> {
    inside(dir, "index.html"@)
}

/// The file served from the place `at`: its bytes under the name of its last
/// segment, if a file stands there.
pub open spec fn serve(
    disk: Map<Seq<char>, EntryView>,
    at: Seq<char>,
    fallback: Seq<char>,
) -> Result<FileView, Error> {
    match entry_at(disk, at) {
        EntryView::Regular(content) => Ok(
            FileView {
                name: final_segment(at),
                content,
                mime_type: mime_of(final_segment(at), fallback),
            },
        ),
        _ => Err(Error::FileNotFound),
    }
}

/// The answer to a request for `path`: the file at the place that the path
/// stands for, or the index page of the directory at that place. A path that
/// leaves the root, a place where nothing stands, and a directory without an
/// index page that is a file, give `FileNotFound`.
pub open spec fn resolve(
    path: Seq<char>,
    file_root: Seq<char>,
    fallback: Seq<char>,
    disk: Map<Seq<char>, EntryView>,
) -> Result<FileView, Error> {
    match absolute_path(file_root, path) {
        None => Err(Error::FileNotFound),
        Some(place) => if entry_at(disk, place) is Directory {
            serve(disk, index_of(place), fallback)
        } else {
            serve(disk, place, fallback)
        },
    }
}

/// The first place that has to be looked at before `resolve` can answer a
/// request for `path`, and was not yet: the place that the path stands for,
/// then the index page if a directory stands there.
pub open spec fn unseen(
    path: Seq<char>,
    file_root: Seq<char>,
    disk: Map<Seq<char>, EntryView>,
) -> Option<Seq<char>> {
    match absolute_path(file_root, path) {
        None => None,
        Some(place) => if !disk.contains_key(place) {
            Some(place)
        } else if disk[place] is Directory && !disk.contains_key(index_of(place)) {
            Some(index_of(place))
        } else {
            None
        },
    }
}

/// The names that a list of spans cuts out of a text.
pub open spec fn names_of(spans: Seq<Span>, text: Seq<char>) -> Seq<Seq<char>> {
    Seq::new(spans.len(), |k: int| spans[k].of(text))
}

/// Once a path has left the root, no further segment brings it back.
proof fn lemma_descend_left(segments: Seq<Seq<char>>, upto: int)
    requires
        0 <= upto <= segments.len(),
        descend(segments.take(upto)) is None,
    ensures
        descend(segments) is None,
    decreases segments.len() - upto,
{
    if upto < segments.len() {
        assert(segments.take(upto + 1).drop_last() =~= segments.take(upto));
        lemma_descend_left(segments, upto + 1);
    } else {
        assert(segments.take(upto) =~= segments);
    }
}

/// Every name that `descend` gives is a name, if no segment holds a `/`.
pub proof fn lemma_descend_names(segments: Seq<Seq<char>>)
    requires
        forall|k: int| 0 <= k < segments.len() ==> !(#[trigger] segments[k]).contains('/'),
    ensures
        descend(segments) matches Some(names) ==> forall|k: int|
            0 <= k < names.len() ==> is_name(#[trigger] names[k]),
    decreases segments.len(),
{
    if segments.len() > 0 {
        lemma_descend_names(segments.drop_last());
        assert(!segments[segments.len() - 1].contains('/'));
    }
}

/// Going down from a directory leads to a place below it.
pub proof fn lemma_down_extends(base: Seq<char>, names: Seq<Seq<char>>)
    ensures
        base.is_prefix_of(down(base, names)),
    decreases names.len(),
{
    if names.len() > 0 {
        lemma_down_extends(base, names.drop_last());
        let upper = down(base, names.drop_last());
        assert(upper.is_prefix_of(inside(upper, names.last())));
    }
}

/// No request path leads out of the file root: the place that a path stands
/// for is the root followed by names, none of them empty, `.` or `..`, and
/// none with a `/` in it.
pub proof fn lemma_place_is_below_root(file_root: Seq<char>, path: Seq<char>)
    ensures
        absolute_path(file_root, path) matches Some(place) ==> file_root.is_prefix_of(place)
            && exists|names: Seq<Seq<char>>|
            place == down(file_root, names) && forall|k: int|
                0 <= k < names.len() ==> is_name(#[trigger] names[k]),
{
    lemma_split(path, '/');
    lemma_descend_names(split(path, '/'));
    if let Some(names) = descend(split(path, '/')) {
        lemma_down_extends(file_root, names);
    }
}

/// The index page keeps the name `index.html`.
pub proof fn lemma_index_name(dir: Seq<char>)
    ensures
        final_segment(index_of(dir)) == "index.html"@,
{
    reveal_strlit("index.html");
    let name = "index.html"@;
    if dir.len() == 0 {
        assert(index_of(dir) =~= name);
        lemma_split_whole(name, '/');
    } else if dir.last() == '/' {
        assert(index_of(dir) =~= dir.drop_last().push('/') + name);
        lemma_split_append(dir.drop_last(), '/', name);
    } else {
        lemma_split_append(dir, '/', name);
    }
}

/// Where a directory stands at the place of a path, and a file at its index
/// page, the request is answered with that file: it is called `index.html`
/// and is of type `text/html`, whatever type is configured for unknown
/// extensions.
pub proof fn lemma_index_served(
    path: Seq<char>,
    file_root: Seq<char>,
    fallback: Seq<char>,
    disk: Map<Seq<char>, EntryView>,
)
    requires
        absolute_path(file_root, path) matches Some(place) && entry_at(disk, place) is Directory
            && entry_at(disk, index_of(place)) is Regular,
    ensures
        resolve(path, file_root, fallback, disk) == Ok::<FileView, Error>(
            FileView {
                name: "index.html"@,
                content: entry_at(disk, index_of(absolute_path(file_root, path)->0))->Regular_0,
                mime_type: "text/html"@,
            },
        ),
{
    let place = absolute_path(file_root, path)->0;
    lemma_index_name(place);
    reveal_strlit("index.html");
    reveal_strlit("html");
    let stem = seq!['i', 'n', 'd', 'e', 'x'];
    let ext = seq!['h', 't', 'm', 'l'];
    assert("index.html"@ =~= stem.push('.') + ext);
    assert("html"@ =~= ext);
    lemma_mime_by_extension(stem, ext, fallback);
}

/// A request for the `index.html` of a path stands for the index page of
/// the place that the path stands for.
pub proof fn lemma_index_path(file_root: Seq<char>, path: Seq<char>)
    ensures
        absolute_path(file_root, path.push('/') + "index.html"@) == match absolute_path(
            file_root,
            path,
        ) {
            Some(place) => Some(index_of(place)),
            None => None,
        },
{
    reveal_strlit("index.html");
    let name = "index.html"@;
    let segments = split(path, '/');
    lemma_split_append(path, '/', name);
    assert(segments.push(name).drop_last() =~= segments);
    assert(name[0] == 'i');
    if let Some(names) = descend(segments) {
        assert(names.push(name).drop_last() =~= names);
    }
}

/// Directory fallback: where a directory stands at the place of a path, and
/// its `index.html` is not a directory itself, a request for the path is
/// answered as a request for the path's `index.html` is.
pub proof fn lemma_directory_fallback(
    path: Seq<char>,
    file_root: Seq<char>,
    fallback: Seq<char>,
    disk: Map<Seq<char>, EntryView>,
)
    requires
        absolute_path(file_root, path) matches Some(place) && entry_at(disk, place) is Directory
            && !(entry_at(disk, index_of(place)) is Directory),
    ensures
        resolve(path, file_root, fallback, disk) == resolve(
            path.push('/') + "index.html"@,
            file_root,
            fallback,
            disk,
        ),
{
    lemma_index_path(file_root, path);
}

/// The answer to a request depends on the disk at two places only: the place
/// that the path stands for, and the index page of that place. As long as
/// these two hold what they held, the same path is answered with the same
/// file.
pub proof fn lemma_same_disk_same_file(
    path: Seq<char>,
    file_root: Seq<char>,
    fallback: Seq<char>,
    first: Map<Seq<char>, EntryView>,
    second: Map<Seq<char>, EntryView>,
)
    requires
        absolute_path(file_root, path) matches Some(place) ==> entry_at(first, place) == entry_at(
            second,
            place,
        ) && entry_at(first, index_of(place)) == entry_at(second, index_of(place)),
    ensures
        resolve(path, file_root, fallback, first) == resolve(path, file_root, fallback, second),
{
}

/// Looking at the place that is asked for brings the answer nearer: once
/// what stands there is recorded, that place is not asked for again, and
/// after the place of the path and its index page nothing is asked for.
pub proof fn lemma_probes_end(
    path: Seq<char>,
    file_root: Seq<char>,
    disk: Map<Seq<char>, EntryView>,
    found: EntryView,
    then_found: EntryView,
)
    ensures
        unseen(path, file_root, disk) matches Some(place) ==> {
            let next = disk.insert(place, found);
            &&& unseen(path, file_root, next) != Some(place)
            &&& unseen(path, file_root, next) matches Some(index) ==> unseen(
                path,
                file_root,
                next.insert(index, then_found),
            ) is None
        },
{
    if let Some(place) = absolute_path(file_root, path) {
        reveal_strlit("index.html");
        assert(index_of(place) != place);
    }
}

/// The place that `path` stands for under `file_root`, if the path stays
/// below the root. The place is the root followed by names only: no `.`, no
/// `..` and no empty segment is left in what follows the root.
pub fn get_absolute_path(file_root: &str, path: &str) -> (place: Option<String>)
    ensures
        match place {
            Some(p) => absolute_path(file_root@, path@) == Some(p@),
            None => absolute_path(file_root@, path@) is None,
        },
{
    let chars = chars_of(path);
    let spans = pieces(&chars, '/');
    let ghost segments = split(path@, '/');
    proof {
        lemma_split(path@, '/');
    }
    let mut kept: Vec<Span> = Vec::new();
    let mut k: usize = 0;
    while k < spans.len()
        invariant
            k <= spans.len(),
            chars@ == path@,
            segments == split(path@, '/'),
            spans.len() == segments.len(),
            forall|j: int|
                0 <= j < spans.len() ==> (#[trigger] spans[j]).within(chars@.len()) && spans[j].of(
                    chars@,
                ) == segments[j],
            forall|j: int| 0 <= j < segments.len() ==> !(#[trigger] segments[j]).contains('/'),
            descend(segments.take(k as int)) == Some(names_of(kept@, chars@)),
            forall|j: int|
                0 <= j < kept.len() ==> (#[trigger] kept[j]).within(chars@.len()) && is_name(
                    kept[j].of(chars@),
                ),
        decreases spans.len() - k,
    {
        let span = spans[k];
        let ghost segment = segments[k as int];
        let ghost before = names_of(kept@, chars@);
        proof {
            assert(segments.take(k + 1).drop_last() =~= segments.take(k as int));
            assert(segments.take(k + 1).last() == segment);
            assert(span.of(chars@) == segment);
        }
        let len: usize = span.to - span.from;
        if len == 0 || (len == 1 && chars[span.from] == '.') {
            proof {
                if len == 1 {
                    assert(segment =~= here());
                }
            }
        } else if len == 2 && chars[span.from] == '.' && chars[span.from + 1] == '.' {
            proof {
                assert(segment =~= above());
                assert(segment[0] == '.');
                assert(segment != here());
            }
            if kept.len() == 0 {
                proof {
                    lemma_descend_left(segments, k + 1);
                }
                return None;
            }
            kept.pop();
            proof {
                assert(names_of(kept@, chars@) =~= before.drop_last());
            }
        } else {
            proof {
                if segment == here() {
                    assert(segment[0] == '.');
                }
                if segment == above() {
                    assert(segment[0] == '.' && segment[1] == '.');
                }
            }
            kept.push(span);
            proof {
                assert(names_of(kept@, chars@) =~= before.push(segment));
            }
        }
        k += 1;
    }
    let ghost names = names_of(kept@, chars@);
    proof {
        assert(segments.take(k as int) =~= segments);
    }
    let root = chars_of(file_root);
    let mut place = file_root.to_string();
    let mut bare: bool = root.len() > 0 && root[root.len() - 1] != '/';
    let mut j: usize = 0;
    while j < kept.len()
        invariant
            j <= kept.len(),
            chars@ == path@,
            names == names_of(kept@, chars@),
            forall|j: int|
                0 <= j < kept.len() ==> (#[trigger] kept[j]).within(chars@.len()) && is_name(
                    kept[j].of(chars@),
                ),
            place@ == down(file_root@, names.take(j as int)),
            bare == (place@.len() > 0 && place@.last() != '/'),
        decreases kept.len() - j,
    {
        let span = kept[j];
        let ghost name = span.of(chars@);
        proof {
            assert(names.take(j + 1).drop_last() =~= names.take(j as int));
            assert(names.take(j + 1).last() == name);
            assert(is_name(name));
            assert(name[name.len() - 1] != '/');
        }
        if bare {
            place.append("/");
            proof {
                reveal_strlit("/");
                assert("/"@ =~= seq!['/']);
            }
        }
        place.append(path.substring_char(span.from, span.to));
        proof {
            assert(place@ =~= inside(down(file_root@, names.take(j as int)), name));
        }
        bare = true;
        j += 1;
    }
    proof {
        assert(names.take(j as int) =~= names);
    }
    Some(place)
}

/// The bytes of the file at `at`, or `FileNotFound` where no file stands.
pub fn read_file(disk: &Disk, at: &str) -> (content: Result<Vec<u8>, Error>)
    ensures
        match content {
            Ok(bytes) => entry_at(disk@, at@) == EntryView::Regular(bytes@),
            Err(e) => e == Error::FileNotFound && !(entry_at(disk@, at@) is Regular),
        },
{
    match disk.find(at) {
        Some(Entry::Regular(bytes)) => Ok(bytes.clone()),
        _ => Err(Error::FileNotFound),
    }
}

/// Whether a directory stands at `at`.
fn is_dir(disk: &Disk, at: &str) -> (dir: bool)
    ensures
        dir == (entry_at(disk@, at@) is Directory),
{
    match disk.find(at) {
        Some(Entry::Directory) => true,
        _ => false,
    }
}

/// The path of the index page of the directory `dir`.
fn index_path(dir: &str) -> (index: String)
    ensures
        index@ == index_of(dir@),
{
    let chars = chars_of(dir);
    let mut index = dir.to_string();
    if chars.len() > 0 && chars[chars.len() - 1] != '/' {
        index.append("/");
        proof {
            reveal_strlit("/");
            assert("/"@ =~= seq!['/']);
        }
    }
    index.append("index.html");
    assert(index@ =~= index_of(dir@));
    index
}

/// The last segment of `path`.
fn last_segment(path: &str) -> (name: String)
    ensures
        name@ == final_segment(path@),
{
    let chars = chars_of(path);
    let spans = pieces(&chars, '/');
    proof {
        lemma_split(path@, '/');
    }
    let last = spans[spans.len() - 1];
    path.substring_char(last.from, last.to).to_string()
}

/// An outcome of `get_file`, with the file taken by its view.
pub open spec fn outcome(result: Result<File, Error>) -> Result<FileView, Error> {
    match result {
        Ok(file) => Ok(file@),
        Err(e) => Err(e),
    }
}

/// Resolves a request path to a file. The path is taken below `file_root`;
/// where a directory stands there, its `index.html` is taken instead. The
/// file gets the name of the last segment of its place and the content type
/// that goes with that name, `mime_default` for an unknown extension. A path
/// that leaves the root, or leads to no file, gives `FileNotFound`.
///
/// A path of which `disk` holds no record counts as absent: see
/// `next_probe` for the places that have to be looked at first.
pub fn get_file(path: &str, file_root: &str, mime_default: &str, disk: &Disk) -> (file: Result<
    File,
    Error,
>)
    ensures
        outcome(file) == resolve(path@, file_root@, mime_default@, disk@),
        file matches Err(e) ==> e == Error::FileNotFound,
{
    let place = match get_absolute_path(file_root, path) {
        Some(place) => place,
        None => {
            return Err(Error::FileNotFound);
        },
    };
    let at = if is_dir(disk, place.as_str()) {
        index_path(place.as_str())
    } else {
        place
    };
    let content = match read_file(disk, at.as_str()) {
        Ok(content) => content,
        Err(e) => {
            return Err(e);
        },
    };
    Ok(File::new(last_segment(at.as_str()), content, mime_default))
}

/// The place that must be looked at next before `get_file` can answer a
/// request for `path`, or `None` when `disk` holds all that the answer
/// depends on.
pub fn next_probe(path: &str, file_root: &str, disk: &Disk) -> (place: Option<String>)
    ensures
        match place {
            Some(p) => unseen(path@, file_root@, disk@) == Some(p@),
            None => unseen(path@, file_root@, disk@) is None,
        },
{
    let place = match get_absolute_path(file_root, path) {
        Some(place) => place,
        None => {
            return None;
        },
    };
    match disk.find(place.as_str()) {
        None => Some(place),
        Some(Entry::Directory) => {
            let index = index_path(place.as_str());
            if disk.find(index.as_str()).is_none() {
                Some(index)
            } else {
                None
            }
        },
        Some(_) => None,
    }
}

} // verus!
