//! The entries of a structural listing.
use vstd::prelude::*;

verus! {

/// One entry of a structural listing: the name of a file, chunk, box, table or
/// section and its size, as the container declares them.
pub struct ArchiveEntry {
    pub name: String,
    pub size: u64,
}

impl View for ArchiveEntry {
    type V = (Seq<char>, int);

    open spec fn view(&self) -> (Seq<char>, int) {
        (self.name@, self.size as int)
    }
}

/// The names and sizes of the entries of a listing.
pub open spec fn entries_of(entries: Seq<ArchiveEntry>) -> Seq<(Seq<char>, int)> {
    entries.map_values(|entry: ArchiveEntry| entry@)
}

/// What a lister reports, as mathematical values.
pub open spec fn listing(r: Option<Vec<ArchiveEntry>>) -> Option<Seq<(Seq<char>, int)>> {
    match r {
        Some(entries) => Some(entries_of(entries@)),
        None => None,
    }
}

/// A listing is reported only if it has entries.
pub open spec fn nonempty(entries: Option<Seq<(Seq<char>, int)>>) -> Option<Seq<(Seq<char>, int)>> {
    match entries {
        Some(list) if list.len() > 0 => Some(list),
        _ => None,
    }
}

/// An entry in front of the rest of a listing.
pub open spec fn prepend(
    entry: (Seq<char>, int),
    rest: Option<Seq<(Seq<char>, int)>>,
) -> Option<Seq<(Seq<char>, int)>> {
    match rest {
        Some(list) => Some(seq![entry] + list),
        None => None,
    }
}

/// A listing whose first entries are known.
pub open spec fn joined(
    first: Seq<(Seq<char>, int)>,
    rest: Option<Seq<(Seq<char>, int)>>,
) -> Option<Seq<(Seq<char>, int)>> {
    match rest {
        Some(list) => Some(first + list),
        None => None,
    }
}

/// An entry can be counted to either side.
pub broadcast proof fn lemma_joined_push(
    first: Seq<(Seq<char>, int)>,
    entry: (Seq<char>, int),
    rest: Option<Seq<(Seq<char>, int)>>,
)
    ensures
        #[trigger] joined(first.push(entry), rest) == joined(first, prepend(entry, rest)),
{
    if let Some(list) = rest {
        assert(first.push(entry) + list == first + (seq![entry] + list));
    }
}

/// Nothing follows, or nothing came before.
pub broadcast proof fn lemma_joined_empty(first: Seq<(Seq<char>, int)>, rest: Option<Seq<(Seq<char>, int)>>)
    ensures
        first.len() == 0 ==> #[trigger] joined(first, rest) == rest,
        rest == Some(Seq::<(Seq<char>, int)>::empty()) ==> joined(first, rest) == Some(first),
{
    if let Some(list) = rest {
        if first.len() == 0 {
            assert(first + list == list);
        }
        if list.len() == 0 {
            assert(first + list == first);
        }
    }
}

pub broadcast group group_joined {
    lemma_joined_push,
    lemma_joined_empty,
}

/// Adds an entry to a listing.
pub fn push_entry(entries: &mut Vec<ArchiveEntry>, name: String, size: u64)
    ensures
        entries_of(final(entries)@) == entries_of(old(entries)@).push((name@, size as int)),
{
    entries.push(ArchiveEntry { name, size });
    assert(entries_of(entries@) == entries_of(old(entries)@).push((name@, size as int)));
}

/// A listing that has not begun.
pub fn no_entries() -> (r: Vec<ArchiveEntry>)
    ensures
        entries_of(r@) == Seq::<(Seq<char>, int)>::empty(),
{
    let entries: Vec<ArchiveEntry> = Vec::new();
    assert(entries_of(entries@) == Seq::<(Seq<char>, int)>::empty());
    entries
}

/// The listing, if it has entries.
pub fn some_entries(entries: Vec<ArchiveEntry>) -> (r: Option<Vec<ArchiveEntry>>)
    ensures
        listing(r) == nonempty(Some(entries_of(entries@))),
{
    if entries.len() == 0 {
        None
    } else {
        Some(entries)
    }
}

} // verus!
