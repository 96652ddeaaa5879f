//! The catalog: the files of a writer as a listing of its directory shows
//! them, how much they occupy, and which of them is the oldest that may go.

use crate::names::{
    is_matching, lemma_precedes_total, lemma_precedes_transitive, matches_pattern, name_precedes,
    precedes,
};
use vstd::prelude::*;

verus! {

/// What kind of thing a directory entry is.
#[derive(Clone, Copy, Debug, PartialEq, Eq, Structural)]
pub enum EntryKind {
    /// A regular file.
    File,
    /// A directory.
    Directory,
    /// A symbolic link, whatever it points to.
    Symlink,
    /// Anything else: a socket, a pipe, a device.
    Other,
}

/// One entry of a directory listing.
#[derive(Clone, Debug, PartialEq, Eq)]
pub struct DirEntry {
    /// The entry's name inside the directory.
    pub name: String,
    /// Its size in bytes.
    pub size: u64,
    /// Its kind.
    pub kind: EntryKind,
}

/// A directory entry as contracts see it.
pub struct DirEntryView {
    pub name: Seq<char>,
    pub size: u64,
    pub kind: EntryKind,
}

impl View for DirEntry {
    type V = DirEntryView;

    open spec fn view(&self) -> DirEntryView {
        DirEntryView { name: self.name@, size: self.size, kind: self.kind }
    }
}

impl DeepView for DirEntry {
    type V = DirEntryView;

    open spec fn deep_view(&self) -> DirEntryView {
        self.view()
    }
}

/// One file of the writer.
#[derive(Clone, Debug, PartialEq, Eq)]
pub struct CatalogEntry {
    /// The file's name inside the target directory.
    pub name: String,
    /// Its size in bytes.
    pub size: u64,
    /// Whether this is the file that is open for writing.
    pub is_current: bool,
}

/// A catalog entry as contracts see it.
pub struct CatalogEntryView {
    pub name: Seq<char>,
    pub size: u64,
    pub is_current: bool,
}

impl View for CatalogEntry {
    type V = CatalogEntryView;

    open spec fn view(&self) -> CatalogEntryView {
        CatalogEntryView { name: self.name@, size: self.size, is_current: self.is_current }
    }
}

impl DeepView for CatalogEntry {
    type V = CatalogEntryView;

    open spec fn deep_view(&self) -> CatalogEntryView {
        self.view()
    }
}

/// An entry is one of the writer's files when it is a regular file whose name
/// matches the prefix and the suffix.
pub open spec fn belongs(entry: DirEntryView, prefix: Seq<char>, suffix: Seq<char>) -> bool {
    entry.kind == EntryKind::File && matches_pattern(entry.name, prefix, suffix)
}

/// The catalog entry of a directory entry; it is the current file when it has
/// the current file's name.
pub open spec fn catalogued(entry: DirEntryView, current: Seq<char>) -> CatalogEntryView {
    CatalogEntryView { name: entry.name, size: entry.size, is_current: entry.name == current }
}

/// The catalog of a listing: the entries that belong to the writer, in the
/// order of the listing.
pub open spec fn catalog_of(
    entries: Seq<DirEntryView>,
    prefix: Seq<char>,
    suffix: Seq<char>,
    current: Seq<char>,
) -> Seq<CatalogEntryView> {
    entries.filter(|e: DirEntryView| belongs(e, prefix, suffix)).map_values(
        |e: DirEntryView| catalogued(e, current),
    )
}

/// The bytes that the files of a catalog occupy together.
pub open spec fn total_size(catalog: Seq<CatalogEntryView>) -> nat
    decreases catalog.len(),
{
    if catalog.len() == 0 {
        0
    } else {
        total_size(catalog.drop_last()) + catalog.last().size as nat
    }
}

/// Whether a catalog holds a file other than the current one.
pub open spec fn has_deletable(catalog: Seq<CatalogEntryView>) -> bool {
    exists|i: int| 0 <= i < catalog.len() && !(#[trigger] catalog[i]).is_current
}

/// The entry at `i` is the oldest that may be deleted: it is not the current
/// file, no other such file has a name that precedes its name, and none before
/// it in the catalog has the same name.
pub open spec fn is_oldest_deletable(catalog: Seq<CatalogEntryView>, i: int) -> bool {
    &&& 0 <= i < catalog.len()
    &&& !catalog[i].is_current
    &&& forall|j: int|
        0 <= j < catalog.len() && !(#[trigger] catalog[j]).is_current ==> !precedes(
            catalog[j].name,
            catalog[i].name,
        )
    &&& forall|j: int|
        0 <= j < i && !(#[trigger] catalog[j]).is_current ==> catalog[j].name != catalog[i].name
}

/// The place of the oldest file that may be deleted, if there is one.
pub open spec fn oldest_deletable(catalog: Seq<CatalogEntryView>) -> Option<int> {
    if has_deletable(catalog) {
        Some(choose|i: int| is_oldest_deletable(catalog, i))
    } else {
        None
    }
}

/// At most one entry of a catalog is its oldest deletable one.
pub proof fn lemma_oldest_deletable_unique(catalog: Seq<CatalogEntryView>, i: int, j: int)
    requires
        is_oldest_deletable(catalog, i),
        is_oldest_deletable(catalog, j),
    ensures
        i == j,
{
    lemma_precedes_total(catalog[i].name, catalog[j].name);
}

/// The file that is open for writing is never the one to delete, and the one to
/// delete is a file of the catalog.
pub proof fn lemma_oldest_deletable_spares_current(catalog: Seq<CatalogEntryView>)
    ensures
        oldest_deletable(catalog) matches Some(i) ==> 0 <= i < catalog.len()
            && !catalog[i].is_current && is_oldest_deletable(catalog, i),
        oldest_deletable(catalog) is None <==> forall|i: int|
            0 <= i < catalog.len() ==> (#[trigger] catalog[i]).is_current,
{
    assert(catalog.take(catalog.len() as int) =~= catalog);
    lemma_oldest_deletable_exists(catalog, catalog.len() as int);
}

/// Among the first `n` entries of a catalog, if one may be deleted, one is the
/// oldest of those that may.
proof fn lemma_oldest_deletable_exists(catalog: Seq<CatalogEntryView>, n: int)
    requires
        0 <= n <= catalog.len(),
    ensures
        has_deletable(catalog.take(n)) ==> exists|i: int|
            is_oldest_deletable(catalog.take(n), i),
    decreases n,
{
    let head = catalog.take(n);
    if n > 0 && has_deletable(head) {
        let shorter = catalog.take(n - 1);
        assert(shorter =~= head.take(n - 1));
        lemma_oldest_deletable_exists(catalog, n - 1);
        if has_deletable(shorter) {
            let best = choose|i: int| is_oldest_deletable(shorter, i);
            assert(head[best] == shorter[best]);
            let last = head[n - 1];
            if !last.is_current && precedes(last.name, head[best].name) {
                assert forall|j: int| 0 <= j < n && !(#[trigger] head[j]).is_current implies !precedes(
                    head[j].name,
                    last.name,
                ) by {
                    if j < n - 1 {
                        assert(head[j] == shorter[j]);
                        if precedes(head[j].name, last.name) {
                            lemma_precedes_transitive(head[j].name, last.name, head[best].name);
                        }
                    } else {
                        crate::names::lemma_precedes_irreflexive(last.name);
                    }
                }
                assert forall|j: int| 0 <= j < n - 1 && !(#[trigger] head[j]).is_current implies head[j].name
                    != last.name by {
                    assert(head[j] == shorter[j]);
                }
                assert(is_oldest_deletable(head, n - 1));
            } else {
                assert forall|j: int| 0 <= j < n && !(#[trigger] head[j]).is_current implies !precedes(
                    head[j].name,
                    head[best].name,
                ) by {
                    if j < n - 1 {
                        assert(head[j] == shorter[j]);
                    }
                }
                assert forall|j: int| 0 <= j < best && !(#[trigger] head[j]).is_current implies head[j].name
                    != head[best].name by {
                    assert(head[j] == shorter[j]);
                }
                assert(is_oldest_deletable(head, best));
            }
        } else {
            assert forall|j: int| 0 <= j < n - 1 implies (#[trigger] head[j]).is_current by {
                assert(head[j] == shorter[j]);
            }
            crate::names::lemma_precedes_irreflexive(head[n - 1].name);
            assert(is_oldest_deletable(head, n - 1));
        }
    }
}

/// Picks the writer's files out of a directory listing: regular files whose
/// name matches the prefix and the suffix, in the order of the listing, each
/// marked if it bears the name of the current file.
pub fn list_matching(entries: &Vec<DirEntry>, prefix: &str, suffix: &str, current: &String) -> (catalog:
    Vec<CatalogEntry>)
    ensures
        catalog.deep_view() == catalog_of(entries.deep_view(), prefix@, suffix@, current@),
{
    let ghost listing = entries.deep_view();
    let ghost wanted = |e: DirEntryView| belongs(e, prefix@, suffix@);
    let ghost entered = |e: DirEntryView| catalogued(e, current@);
    let mut catalog: Vec<CatalogEntry> = Vec::new();
    let mut i: usize = 0;
    proof {
        reveal(Seq::filter);
        assert(listing.take(0).filter(wanted) =~= Seq::<DirEntryView>::empty());
    }
    while i < entries.len()
        invariant
            i <= entries.len(),
            listing == entries.deep_view(),
            wanted == |e: DirEntryView| belongs(e, prefix@, suffix@),
            entered == |e: DirEntryView| catalogued(e, current@),
            catalog.deep_view() =~= listing.take(i as int).filter(wanted).map_values(entered),
        decreases entries.len() - i,
    {
        let entry = &entries[i];
        let is_file = match entry.kind {
            EntryKind::File => true,
            _ => false,
        };
        let ghost shorter = listing.take(i as int);
        let ghost longer = listing.take(i + 1);
        let ghost listed = catalog.deep_view();
        proof {
            reveal(Seq::filter);
            assert(longer.drop_last() =~= shorter);
            assert(longer.last() == entry@);
            assert(wanted(entry@) == belongs(entry@, prefix@, suffix@));
            assert(longer.filter(wanted) == if wanted(entry@) {
                shorter.filter(wanted).push(entry@)
            } else {
                shorter.filter(wanted)
            });
        }
        if is_file && is_matching(entry.name.as_str(), prefix, suffix) {
            let is_current = entry.name == *current;
            let kept = CatalogEntry { name: entry.name.clone(), size: entry.size, is_current };
            assert(kept@ == entered(entry@));
            catalog.push(kept);
            proof {
                assert(catalog.deep_view() =~= listed.push(entered(entry@)));
                assert(shorter.filter(wanted).push(entry@).map_values(entered) =~= shorter.filter(
                    wanted,
                ).map_values(entered).push(entered(entry@)));
            }
        }
        i += 1;
    }
    assert(listing.take(i as int) =~= listing);
    catalog
}

/// Adds up the sizes of the files of a catalog.
pub fn occupied_bytes(catalog: &Vec<CatalogEntry>) -> (bytes: u128)
    ensures
        bytes == total_size(catalog.deep_view()),
{
    let ghost files = catalog.deep_view();
    let mut bytes: u128 = 0;
    let mut i: usize = 0;
    while i < catalog.len()
        invariant
            i <= catalog.len(),
            files == catalog.deep_view(),
            bytes == total_size(files.take(i as int)),
            bytes <= i * 0xffff_ffff_ffff_ffff,
        decreases catalog.len() - i,
    {
        proof {
            let longer = files.take(i + 1);
            assert(longer.drop_last() =~= files.take(i as int));
            assert(longer.last() == catalog[i as int]@);
        }
        bytes = bytes + catalog[i].size as u128;
        i += 1;
    }
    assert(files.take(i as int) =~= files);
    bytes
}

/// Finds the file to delete next: of the files that are not the current one,
/// the first whose name no other precedes. There is none exactly when the
/// catalog holds no file but the current one.
pub fn find_oldest_deletable(catalog: &Vec<CatalogEntry>) -> (found: Option<usize>)
    ensures
        match found {
            Some(i) => oldest_deletable(catalog.deep_view()) == Some(i as int),
            None => oldest_deletable(catalog.deep_view()) is None,
        },
        found matches Some(i) ==> i < catalog.len() && !catalog[i as int].is_current,
{
    let ghost files = catalog.deep_view();
    let mut best: Option<usize> = None;
    let mut i: usize = 0;
    while i < catalog.len()
        invariant
            i <= catalog.len(),
            files == catalog.deep_view(),
            match best {
                Some(b) => b < i && is_oldest_deletable(files.take(i as int), b as int),
                None => forall|j: int| 0 <= j < i ==> (#[trigger] files[j]).is_current,
            },
        decreases catalog.len() - i,
    {
        let ghost shorter = files.take(i as int);
        let ghost longer = files.take(i + 1);
        if !catalog[i].is_current {
            match best {
                Some(b) => {
                    if name_precedes(catalog[i].name.as_str(), catalog[b].name.as_str()) {
                        proof {
                            assert forall|j: int|
                                0 <= j < i + 1 && !(#[trigger] longer[j]).is_current implies !precedes(
                                longer[j].name,
                                longer[i as int].name,
                            ) by {
                                if j < i {
                                    assert(shorter[j] == longer[j]);
                                    if precedes(longer[j].name, longer[i as int].name) {
                                        lemma_precedes_transitive(
                                            longer[j].name,
                                            longer[i as int].name,
                                            shorter[b as int].name,
                                        );
                                    }
                                } else {
                                    crate::names::lemma_precedes_irreflexive(longer[j].name);
                                }
                            }
                            assert forall|j: int|
                                0 <= j < i && !(#[trigger] longer[j]).is_current implies longer[j].name
                                != longer[i as int].name by {
                                assert(shorter[j] == longer[j]);
                            }
                        }
                        best = Some(i);
                    } else {
                        proof {
                            assert forall|j: int|
                                0 <= j < i + 1 && !(#[trigger] longer[j]).is_current implies !precedes(
                                longer[j].name,
                                longer[b as int].name,
                            ) by {
                                if j < i {
                                    assert(shorter[j] == longer[j]);
                                }
                            }
                            assert forall|j: int|
                                0 <= j < b && !(#[trigger] longer[j]).is_current implies longer[j].name
                                != longer[b as int].name by {
                                assert(shorter[j] == longer[j]);
                            }
                        }
                    }
                },
                None => {
                    proof {
                        crate::names::lemma_precedes_irreflexive(longer[i as int].name);
                        assert(is_oldest_deletable(longer, i as int));
                    }
                    best = Some(i);
                },
            }
        } else {
            proof {
                match best {
                    Some(b) => {
                        assert forall|j: int|
                            0 <= j < i + 1 && !(#[trigger] longer[j]).is_current implies !precedes(
                            longer[j].name,
                            longer[b as int].name,
                        ) by {
                            assert(shorter[j] == longer[j]);
                        }
                        assert forall|j: int|
                            0 <= j < b && !(#[trigger] longer[j]).is_current implies longer[j].name
                            != longer[b as int].name by {
                            assert(shorter[j] == longer[j]);
                        }
                    },
                    None => {},
                }
            }
        }
        i += 1;
    }
    proof {
        assert(files.take(i as int) =~= files);
        lemma_oldest_deletable_spares_current(files);
        match best {
            Some(b) => {
                assert(!files[b as int].is_current);
                lemma_oldest_deletable_unique(files, b as int, oldest_deletable(files)->0);
            },
            None => {},
        }
    }
    best
}

} // verus!
