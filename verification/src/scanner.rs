//! The scanner: which files of a directory tree are merged.
//!
//! The tree is looked at one level deep. Of each directory under the root, the
//! files that are images by their extension and are no earlier composites are
//! listed in the order of their names; a directory without such a file is left
//! out.

use vstd::prelude::*;
use vstd::relations::*;
use vstd::seq_lib::*;
use crate::codec::{format_of_path, source_format};
use crate::naming::is_merged_name;
use crate::paths::same_text;
use crate::order::{lemma_name_le_reflexive, lemma_name_le_total, lemma_name_le_transitive, lemma_name_lt_transitive, lemma_name_not_le, lemma_name_order_is_total, name_comes_first, name_le, name_lt, name_order};

pub use crate::naming::is_merged_file;

verus! {

/// What an entry of a directory is.
#[derive(Debug, Clone, Copy, PartialEq, Eq, Structural)]
pub enum EntryKind {
    /// A regular file, or a link to one.
    File,
    /// A directory, or a link to one.
    Directory,
    /// Anything else.
    Other,
}

/// An entry of a directory: its name and what it is.
#[derive(Debug, Clone)]
pub struct DirEntry {
    pub name: String,
    pub kind: EntryKind,
}

/// Whether the file at `path` is an image by its extension: one of `jpg`,
/// `jpeg`, `png`, `gif`, `bmp`, `tiff`, `tif` and `webp`, capitals counting as
/// small letters.
pub fn is_image_file(path: &str) -> (r: bool)
    ensures
        r == format_of_path(path@) is Some,
{
    source_format(path).is_some()
}

/// The names that the strings spell.
pub open spec fn names_of(files: Seq<String>) -> Seq<Seq<char>> {
    files.map_values(|s: String| s@)
}

/// Whether an entry is a candidate for merging: a file that is an image by its
/// extension and no earlier composite.
pub open spec fn is_candidate(entry: DirEntry) -> bool {
    &&& entry.kind == EntryKind::File
    &&& !is_merged_name(entry.name@)
    &&& format_of_path(entry.name@) is Some
}

/// The names of the candidates among the entries, in the order of the
/// entries.
pub open spec fn candidates(entries: Seq<DirEntry>) -> Seq<Seq<char>>
    decreases entries.len(),
{
    if entries.len() == 0 {
        Seq::empty()
    } else if is_candidate(entries.last()) {
        candidates(entries.drop_last()).push(entries.last().name@)
    } else {
        candidates(entries.drop_last())
    }
}

/// The image files of a directory with the given entries: the names of the
/// candidates, in the order of names.
pub open spec fn image_files_of(entries: Seq<DirEntry>) -> Seq<Seq<char>> {
    candidates(entries).sort_by(name_order())
}

/// The image files of a directory are its candidates, each as often as it is
/// listed, and they stand in the order of names.
pub proof fn lemma_image_files_of(entries: Seq<DirEntry>)
    ensures
        sorted_by(image_files_of(entries), name_order()),
        image_files_of(entries).to_multiset() == candidates(entries).to_multiset(),
        image_files_of(entries).len() == candidates(entries).len(),
{
    lemma_name_order_is_total();
    candidates(entries).lemma_sort_by_ensures(name_order());
    image_files_of(entries).to_multiset_ensures();
    candidates(entries).to_multiset_ensures();
}

/// Every candidate among the entries is an image by its extension and no
/// earlier composite.
pub proof fn lemma_candidates_are_images(entries: Seq<DirEntry>, i: int)
    requires
        0 <= i < candidates(entries).len(),
    ensures
        !is_merged_name(candidates(entries)[i]),
        format_of_path(candidates(entries)[i]) is Some,
    decreases entries.len(),
{
    if entries.len() > 0 {
        if i < candidates(entries.drop_last()).len() {
            lemma_candidates_are_images(entries.drop_last(), i);
        }
    }
}

/// What the scanner lists for a directory is an image by its extension and no
/// earlier composite.
pub proof fn lemma_image_files_are_images(entries: Seq<DirEntry>, i: int)
    requires
        0 <= i < image_files_of(entries).len(),
    ensures
        !is_merged_name(image_files_of(entries)[i]),
        format_of_path(image_files_of(entries)[i]) is Some,
{
    lemma_image_files_of(entries);
    let name = image_files_of(entries)[i];
    image_files_of(entries).to_multiset_ensures();
    candidates(entries).to_multiset_ensures();
    assert(image_files_of(entries).contains(name));
    assert(image_files_of(entries).to_multiset().count(name) > 0);
    assert(candidates(entries).to_multiset().count(name) > 0);
    assert(candidates(entries).contains(name));
    let k = choose|k: int| 0 <= k < candidates(entries).len() && candidates(entries)[k] == name;
    lemma_candidates_are_images(entries, k);
}

/// Puts `name` into the list, which is in the order of names, at a place that
/// keeps it so.
fn insert_in_order(files: &mut Vec<String>, name: String)
    requires
        sorted_by(names_of(old(files)@), name_order()),
    ensures
        sorted_by(names_of(final(files)@), name_order()),
        names_of(final(files)@).to_multiset() == names_of(old(files)@).to_multiset().insert(name@),
{
    let ghost before = names_of(files@);
    let mut k: usize = 0;
    while k < files.len() && name_comes_first(files[k].as_str(), name.as_str())
        invariant
            k <= files.len(),
            before == names_of(files@),
            forall|j: int| 0 <= j < k ==> name_le(#[trigger] before[j], name@),
        decreases files.len() - k,
    {
        k = k + 1;
    }
    files.insert(k, name);
    proof {
        let after = names_of(files@);
        assert(after =~= before.insert(k as int, name@));
        to_multiset_insert(before, k as int, name@);
        assert forall|i: int, j: int| 0 <= i < j < after.len() implies name_order()(
            after[i],
            after[j],
        ) by {
            if j == k {
                assert(after[i] == before[i]);
            } else if i == k {
                assert(after[j] == before[j - 1]);
                assert(!name_le(before[k as int], name@));
                lemma_name_le_total(before[k as int], name@);
                if j - 1 > k {
                    assert(name_order()(before[k as int], before[j - 1]));
                } else {
                    lemma_name_le_reflexive(before[k as int]);
                }
                lemma_name_le_transitive(name@, before[k as int], before[j - 1]);
            } else {
                let i0 = if i < k {
                    i
                } else {
                    i - 1
                };
                let j0 = if j < k {
                    j
                } else {
                    j - 1
                };
                assert(after[i] == before[i0]);
                assert(after[j] == before[j0]);
                assert(name_order()(before[i0], before[j0]));
            }
        }
    }
}

/// The image files among the entries of a directory, in the order of their
/// names: the regular files that are images by their extension, without the
/// earlier composites.
pub fn find_image_files(entries: &Vec<DirEntry>) -> (files: Vec<String>)
    ensures
        names_of(files@) == image_files_of(entries@),
{
    let mut files: Vec<String> = Vec::new();
    let mut i: usize = 0;
    assert(entries@.take(0) =~= Seq::<DirEntry>::empty());
    assert(names_of(files@) =~= Seq::<Seq<char>>::empty());
    while i < entries.len()
        invariant
            i <= entries.len(),
            sorted_by(names_of(files@), name_order()),
            names_of(files@).to_multiset() == candidates(entries@.take(i as int)).to_multiset(),
        decreases entries.len() - i,
    {
        assert(entries@.take(i + 1).drop_last() =~= entries@.take(i as int));
        let entry = &entries[i];
        let keep = match entry.kind {
            EntryKind::File => !is_merged_file(entry.name.as_str()) && is_image_file(
                entry.name.as_str(),
            ),
            _ => false,
        };
        if keep {
            proof {
                to_multiset_build(candidates(entries@.take(i as int)), entry.name@);
            }
            insert_in_order(&mut files, entry.name.clone());
        }
        i = i + 1;
    }
    proof {
        assert(entries@.take(i as int) =~= entries@);
        lemma_image_files_of(entries@);
        lemma_name_order_is_total();
        lemma_sorted_unique(names_of(files@), image_files_of(entries@), name_order());
    }
    files
}

/// An entry of the root as it was found: its name, what it is, and, for a
/// directory, its entries or why they could not be listed. What stands under
/// `entries` for anything but a directory does not count.
#[derive(Debug)]
pub struct DirListing {
    pub name: String,
    pub kind: EntryKind,
    pub entries: Result<Vec<DirEntry>, String>,
}

/// The entries of a listed directory, none where they could not be listed.
pub open spec fn entries_of(listing: DirListing) -> Seq<DirEntry> {
    match listing.entries {
        Ok(entries) => entries@,
        Err(_) => Seq::empty(),
    }
}

/// Why a listed directory could not be read, where it could not.
pub open spec fn failure_of(listing: DirListing) -> Option<Seq<char>> {
    match listing.entries {
        Err(reason) if listing.kind == EntryKind::Directory => Some(reason@),
        _ => None,
    }
}

/// Why the first of the directories that could not be read could not be read;
/// `None` where all could be.
pub open spec fn first_failure(listings: Seq<DirListing>) -> Option<Seq<char>>
    decreases listings.len(),
{
    if listings.len() == 0 {
        None
    } else if first_failure(listings.drop_last()) is Some {
        first_failure(listings.drop_last())
    } else {
        failure_of(listings.last())
    }
}

/// A failure among the first of the listings is the first failure of them all.
pub proof fn lemma_first_failure_of_prefix(listings: Seq<DirListing>, k: int)
    requires
        0 <= k <= listings.len(),
        first_failure(listings.take(k)) is Some,
    ensures
        first_failure(listings) == first_failure(listings.take(k)),
    decreases listings.len() - k,
{
    if k < listings.len() {
        assert(listings.take(k + 1).drop_last() =~= listings.take(k));
        lemma_first_failure_of_prefix(listings, k + 1);
    } else {
        assert(listings.take(k) =~= listings);
    }
}

/// A directory with its image files, in the order of their names.
#[derive(Debug, Clone)]
pub struct DirectoryImages {
    pub name: String,
    pub files: Vec<String>,
}

/// What a scan found: the directories that hold image files, in the order of
/// their names, each name once.
#[derive(Debug, Clone)]
pub struct ScanResult {
    pub directories: Vec<DirectoryImages>,
}

/// Whether the directories stand in the order of their names, each name once.
pub open spec fn in_name_order(dirs: Seq<DirectoryImages>) -> bool {
    forall|i: int, j: int|
        0 <= i < j < dirs.len() ==> name_lt((#[trigger] dirs[i]).name@, (#[trigger] dirs[j]).name@)
}

/// Whether one of the directories has the name `name`.
pub open spec fn has_directory(dirs: Seq<DirectoryImages>, name: Seq<char>) -> bool {
    exists|i: int| 0 <= i < dirs.len() && (#[trigger] dirs[i]).name@ == name
}

/// The place of the directory with the name `name`.
pub open spec fn place_of(dirs: Seq<DirectoryImages>, name: Seq<char>) -> int {
    choose|i: int| 0 <= i < dirs.len() && (#[trigger] dirs[i]).name@ == name
}

/// The directories as a map from each name to the image files under it.
pub open spec fn directory_map(dirs: Seq<DirectoryImages>) -> Map<Seq<char>, Seq<Seq<char>>> {
    Map::new(
        |name: Seq<char>| has_directory(dirs, name),
        |name: Seq<char>| names_of(dirs[place_of(dirs, name)].files@),
    )
}

impl View for ScanResult {
    type V = Map<Seq<char>, Seq<Seq<char>>>;

    open spec fn view(&self) -> Map<Seq<char>, Seq<Seq<char>>> {
        directory_map(self.directories@)
    }
}

impl ScanResult {
    /// The directories stand in the order of their names, each name once.
    pub open spec fn wf(&self) -> bool {
        in_name_order(self.directories@)
    }
}

/// What scanning finds in the listed directories: for each that is a directory
/// and holds image files, its name with those files. Of two listings with one
/// name the later counts.
pub open spec fn scanned(listings: Seq<DirListing>) -> Map<Seq<char>, Seq<Seq<char>>>
    decreases listings.len(),
{
    if listings.len() == 0 {
        Map::empty()
    } else {
        let before = scanned(listings.drop_last());
        let last = listings.last();
        let files = image_files_of(entries_of(last));
        if last.kind == EntryKind::Directory && files.len() > 0 {
            before.insert(last.name@, files)
        } else {
            before
        }
    }
}

/// In a list that holds each name once, a name has one place.
pub proof fn lemma_one_place(dirs: Seq<DirectoryImages>, i: int, j: int)
    requires
        in_name_order(dirs),
        0 <= i < dirs.len(),
        0 <= j < dirs.len(),
        dirs[i].name@ == dirs[j].name@,
    ensures
        i == j,
{
    if i < j {
        assert(name_lt(dirs[i].name@, dirs[j].name@));
    } else if j < i {
        assert(name_lt(dirs[j].name@, dirs[i].name@));
    }
}

/// Puts the directory `name` with its files into the list: in place of the
/// directory of that name, where there is one, else at the place that the
/// order of names gives it.
fn put_directory(directories: &mut Vec<DirectoryImages>, name: String, files: Vec<String>)
    requires
        in_name_order(old(directories)@),
    ensures
        in_name_order(final(directories)@),
        directory_map(final(directories)@) == directory_map(old(directories)@).insert(
            name@,
            names_of(files@),
        ),
{
    let ghost before = directories@;
    let ghost key = name@;
    let ghost value = names_of(files@);
    let mut k: usize = 0;
    while k < directories.len() && !name_comes_first(name.as_str(), directories[k].name.as_str())
        invariant
            k <= directories.len(),
            before == directories@,
            key == name@,
            forall|j: int| 0 <= j < k ==> name_lt((#[trigger] before[j]).name@, key),
        decreases directories.len() - k,
    {
        proof {
            lemma_name_not_le(key, before[k as int].name@);
        }
        k = k + 1;
    }
    if k < directories.len() && directories[k].name == name {
        directories[k] = DirectoryImages { name, files };
        proof {
            let after = directories@;
            assert(after =~= before.update(k as int, after[k as int]));
            assert forall|i: int, j: int| 0 <= i < j < after.len() implies name_lt(
                (#[trigger] after[i]).name@,
                (#[trigger] after[j]).name@,
            ) by {
                assert(after[i].name@ == before[i].name@);
                assert(after[j].name@ == before[j].name@);
            }
            assert forall|q: Seq<char>| has_directory(after, q) == (q == key || has_directory(
                before,
                q,
            )) by {
                if has_directory(after, q) {
                    let i = place_of(after, q);
                    assert(before[i].name@ == q);
                }
                if has_directory(before, q) {
                    let i = place_of(before, q);
                    assert(after[i].name@ == q);
                }
                if q == key {
                    assert(after[k as int].name@ == q);
                }
            }
            assert forall|q: Seq<char>| has_directory(after, q) implies #[trigger] directory_map(
                after,
            )[q] == directory_map(before).insert(key, value)[q] by {
                let i = place_of(after, q);
                if q == key {
                    lemma_one_place(after, i, k as int);
                } else {
                    let j = place_of(before, q);
                    assert(before[i].name@ == q);
                    lemma_one_place(before, i, j);
                }
            }
            assert(directory_map(after) =~= directory_map(before).insert(key, value));
        }
    } else {
        directories.insert(k, DirectoryImages { name, files });
        proof {
            let after = directories@;
            assert(after =~= before.insert(k as int, after[k as int]));
            if k < before.len() {
                assert(name_le(key, before[k as int].name@));
            }
            assert forall|i: int, j: int| 0 <= i < j < after.len() implies name_lt(
                (#[trigger] after[i]).name@,
                (#[trigger] after[j]).name@,
            ) by {
                if j == k {
                    assert(after[i] == before[i]);
                } else if i == k {
                    assert(after[j] == before[j - 1]);
                    if j - 1 > k {
                        assert(name_lt(before[k as int].name@, before[j - 1].name@));
                        lemma_name_lt_transitive(key, before[k as int].name@, before[j - 1].name@);
                    }
                } else {
                    let i0 = if i < k {
                        i
                    } else {
                        i - 1
                    };
                    let j0 = if j < k {
                        j
                    } else {
                        j - 1
                    };
                    assert(after[i] == before[i0]);
                    assert(after[j] == before[j0]);
                    assert(name_lt(before[i0].name@, before[j0].name@));
                }
            }
            assert forall|q: Seq<char>| has_directory(after, q) == (q == key || has_directory(
                before,
                q,
            )) by {
                if has_directory(after, q) && q != key {
                    let i = place_of(after, q);
                    let i0 = if i < k {
                        i
                    } else {
                        i - 1
                    };
                    assert(before[i0].name@ == q);
                }
                if has_directory(before, q) {
                    let i = place_of(before, q);
                    let i1 = if i < k {
                        i
                    } else {
                        i + 1
                    };
                    assert(after[i1].name@ == q);
                }
                if q == key {
                    assert(after[k as int].name@ == q);
                }
            }
            assert forall|q: Seq<char>| has_directory(after, q) implies #[trigger] directory_map(
                after,
            )[q] == directory_map(before).insert(key, value)[q] by {
                let i = place_of(after, q);
                if q == key {
                    lemma_one_place(after, i, k as int);
                } else {
                    let j = place_of(before, q);
                    let i0 = if i < k {
                        i
                    } else {
                        i - 1
                    };
                    assert(before[i0].name@ == q);
                    lemma_one_place(before, i0, j);
                }
            }
            assert(directory_map(after) =~= directory_map(before).insert(key, value));
        }
    }
}

/// What a scan comes to. It fails where the root could not be listed, and
/// where one of the directories under it could not be, with what was said of
/// the first that could not; else it finds what `scanned` says.
pub open spec fn scan_outcome(root: Result<Vec<DirListing>, String>) -> Result<
    Map<Seq<char>, Seq<Seq<char>>>,
    Seq<char>,
> {
    match root {
        Err(reason) => Err(reason@),
        Ok(listings) => match first_failure(listings@) {
            Some(reason) => Err(reason),
            None => Ok(scanned(listings@)),
        },
    }
}

/// What is merged under the root, from the listing of the root and of the
/// directories under it: for every directory that holds image files, its name
/// with those files in the order of their names.
///
/// Fails where the root or a directory under it could not be listed, with what
/// was said of the first that could not.
pub fn scan_for_images(root: &Result<Vec<DirListing>, String>) -> (r: Result<ScanResult, String>)
    ensures
        match r {
            Ok(result) => result.wf() && scan_outcome(*root) == Ok::<
                Map<Seq<char>, Seq<Seq<char>>>,
                Seq<char>,
            >(result@),
            Err(reason) => scan_outcome(*root) == Err::<Map<Seq<char>, Seq<Seq<char>>>, Seq<char>>(
                reason@,
            ),
        },
{
    let listings = match root {
        Ok(listings) => listings,
        Err(reason) => {
            return Err(reason.clone());
        },
    };
    let mut directories: Vec<DirectoryImages> = Vec::new();
    let mut i: usize = 0;
    assert(listings@.take(0) =~= Seq::<DirListing>::empty());
    assert(directory_map(directories@) =~= Map::<Seq<char>, Seq<Seq<char>>>::empty());
    while i < listings.len()
        invariant
            i <= listings.len(),
            *root == Ok::<Vec<DirListing>, String>(*listings),
            in_name_order(directories@),
            first_failure(listings@.take(i as int)) is None,
            directory_map(directories@) == scanned(listings@.take(i as int)),
        decreases listings.len() - i,
    {
        assert(listings@.take(i + 1).drop_last() =~= listings@.take(i as int));
        let listing = &listings[i];
        match listing.kind {
            EntryKind::Directory => {
                match &listing.entries {
                    Ok(entries) => {
                        let files = find_image_files(entries);
                        if files.len() > 0 {
                            put_directory(&mut directories, listing.name.clone(), files);
                        }
                    },
                    Err(reason) => {
                        proof {
                            assert(listings@.take(i + 1).last() == listings@[i as int]);
                            assert(failure_of(listings@[i as int]) == Some(reason@));
                            assert(first_failure(listings@.take(i + 1)) == Some(reason@));
                            lemma_first_failure_of_prefix(listings@, i + 1);
                        }
                        return Err(reason.clone());
                    },
                }
            },
            _ => {},
        }
        i = i + 1;
    }
    assert(listings@.take(i as int) =~= listings@);
    Ok(ScanResult { directories })
}

impl ScanResult {
    /// How many directories hold image files.
    pub fn len(&self) -> (n: usize)
        requires
            self.wf(),
        ensures
            n == self@.dom().len(),
            self@.dom().finite(),
    {
        proof {
            lemma_directory_count(self.directories@);
        }
        self.directories.len()
    }

    /// Whether no directory holds image files.
    pub fn is_empty(&self) -> (r: bool)
        ensures
            r == (self@ == Map::<Seq<char>, Seq<Seq<char>>>::empty()),
    {
        let r = self.directories.len() == 0;
        proof {
            if r {
                assert(self@ =~= Map::<Seq<char>, Seq<Seq<char>>>::empty());
            } else {
                assert(has_directory(self.directories@, self.directories@[0].name@));
                assert(self@.contains_key(self.directories@[0].name@));
            }
        }
        r
    }

    /// The image files of the directory `name`, if it holds any.
    pub fn get(&self, name: &str) -> (r: Option<&Vec<String>>)
        requires
            self.wf(),
        ensures
            match r {
                Some(files) => self@.contains_key(name@) && names_of(files@) == self@[name@],
                None => !self@.contains_key(name@),
            },
    {
        let mut i: usize = 0;
        while i < self.directories.len()
            invariant
                i <= self.directories.len(),
                self.wf(),
                forall|j: int| 0 <= j < i ==> (#[trigger] self.directories@[j]).name@ != name@,
            decreases self.directories.len() - i,
        {
            if same_text(self.directories[i].name.as_str(), name) {
                proof {
                    assert(has_directory(self.directories@, name@));
                    lemma_one_place(
                        self.directories@,
                        i as int,
                        place_of(self.directories@, name@),
                    );
                }
                return Some(&self.directories[i].files);
            }
            i = i + 1;
        }
        None
    }

    /// Whether the directory `name` holds image files.
    pub fn contains_key(&self, name: &str) -> (r: bool)
        requires
            self.wf(),
        ensures
            r == self@.contains_key(name@),
    {
        self.get(name).is_some()
    }
}

/// A list that holds each name once holds as many names as it is long.
pub proof fn lemma_directory_count(dirs: Seq<DirectoryImages>)
    requires
        in_name_order(dirs),
    ensures
        directory_map(dirs).dom().finite(),
        directory_map(dirs).dom().len() == dirs.len(),
    decreases dirs.len(),
{
    let dom = directory_map(dirs).dom();
    if dirs.len() == 0 {
        assert(dom =~= Set::<Seq<char>>::empty());
    } else {
        let head = dirs.drop_last();
        let last = dirs.last().name@;
        assert forall|i: int, j: int| 0 <= i < j < head.len() implies name_lt(
            (#[trigger] head[i]).name@,
            (#[trigger] head[j]).name@,
        ) by {
            assert(head[i] == dirs[i]);
            assert(head[j] == dirs[j]);
        }
        lemma_directory_count(head);
        let head_dom = directory_map(head).dom();
        assert forall|q: Seq<char>| dom.contains(q) == (q == last || head_dom.contains(q)) by {
            if has_directory(dirs, q) && q != last {
                let i = place_of(dirs, q);
                assert(head[i].name@ == q);
            }
            if has_directory(head, q) {
                let i = place_of(head, q);
                assert(dirs[i].name@ == q);
            }
            if q == last {
                assert(dirs[dirs.len() - 1].name@ == q);
            }
        }
        if head_dom.contains(last) {
            let i = place_of(head, last);
            assert(dirs[i].name@ == last);
            lemma_one_place(dirs, i, dirs.len() - 1);
        }
        assert(dom =~= head_dom.insert(last));
    }
}

} // verus!
