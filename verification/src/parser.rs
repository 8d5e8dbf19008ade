//! The snapshot listing: one snapshot per line, its name first, then up to
//! three sizes.

use crate::text::{
    chars_of, fields, lemma_first_field, lines, rows, same_text, split_fields, split_lines, texts,
};
use vstd::prelude::*;
use vstd::std_specs::iter::IteratorSpec;

verus! {

/// Reading a listing cannot fail: what cannot be read as a size is left out.
/// The one variant holds a value of a type that has none, so no error exists.
#[derive(Debug)]
pub enum ParserError {
    Never(std::convert::Infallible),
}

/// What a line of the listing says: the mathematical content of a `ListItem`.
pub struct ListEntry {
    pub name: Seq<char>,
    pub used: Option<u128>,
    pub available: Option<u128>,
    pub refer: Option<u128>,
}

/// One line of the listing.
pub struct ListItem {
    name: String,
    used: Option<u128>,
    available: Option<u128>,
    refer: Option<u128>,
}

/// The lines of a listing that name a snapshot, in order.
pub struct List(Vec<ListItem>);

/// The number of bytes that `byte_unit` reads from `text` (a number with an
/// optional unit such as `K`, `MiB` or `GB`); `None` where it rejects the text.
pub uninterp spec fn byte_size(text: Seq<char>) -> Option<u128>;

/// Calls `byte_unit::Byte::from_str` and hands back the `get_bytes()` of what
/// it read. The call depends on the text alone, so its outcome is `byte_size`
/// of the text; a rejection becomes `None`.
#[verifier::external_body]
pub(crate) fn parse_byte_size(text: &str) -> (size: Option<u128>)
    ensures
        size == byte_size(text@),
{
    match byte_unit::Byte::from_str(text) {
        Ok(bytes) => Some(bytes.get_bytes()),
        Err(_) => None,
    }
}

/// The size that the field at position `k` gives: none where the line has no
/// such field, where the field is a dash, or where it does not read as a size.
pub open spec fn size_field(fields: Seq<Seq<char>>, k: int) -> Option<u128> {
    if 0 <= k < fields.len() && fields[k] != "-"@ {
        byte_size(fields[k])
    } else {
        None
    }
}

/// The entry that a line with at least one field stands for: the first field
/// is the name, the next three are the sizes used, available and referenced.
pub open spec fn entry_of_line(line: Seq<char>) -> ListEntry {
    let fields = fields(line);
    ListEntry {
        name: fields[0],
        used: size_field(fields, 1),
        available: size_field(fields, 2),
        refer: size_field(fields, 3),
    }
}

/// The entries of the lines that have a field; blank lines give none.
pub open spec fn entries_of_lines(lines: Seq<Seq<char>>) -> Seq<ListEntry>
    decreases lines.len(),
{
    if lines.len() == 0 {
        Seq::empty()
    } else {
        let before = entries_of_lines(lines.drop_last());
        if fields(lines.last()).len() > 0 {
            before.push(entry_of_line(lines.last()))
        } else {
            before
        }
    }
}

/// The entries that a listing holds.
pub open spec fn listing(text: Seq<char>) -> Seq<ListEntry> {
    entries_of_lines(lines(text))
}

/// Reads the size in field `k`, if the line has one.
fn read_size(fields: &Vec<String>, k: usize) -> (size: Option<u128>)
    ensures
        size == size_field(texts(fields@), k as int),
{
    if k < fields.len() {
        let field = fields[k].as_str();
        if same_text(field, "-") {
            None
        } else {
            parse_byte_size(field)
        }
    } else {
        None
    }
}

impl View for ListItem {
    type V = ListEntry;

    closed spec fn view(&self) -> ListEntry {
        ListEntry {
            name: self.name@,
            used: self.used,
            available: self.available,
            refer: self.refer,
        }
    }
}

impl ListItem {
    /// Every item has a name.
    #[verifier::type_invariant]
    spec fn named(self) -> bool {
        self.name@.len() > 0
    }

    /// An item with the given name and sizes.
    pub fn new(name: &str, used: Option<u128>, available: Option<u128>, refer: Option<u128>) -> (item:
        ListItem)
        requires
            name@.len() > 0,
        ensures
            item@ == (ListEntry { name: name@, used, available, refer }),
    {
        ListItem { name: name.to_owned(), used, available, refer }
    }

    /// The full name of the snapshot; it is never empty.
    pub fn name(&self) -> (name: &str)
        ensures
            name@ == self@.name,
            name@.len() > 0,
    {
        proof {
            use_type_invariant(self);
        }
        self.name.as_str()
    }

    /// The space that the snapshot alone holds, in bytes.
    pub fn used(&self) -> (size: Option<u128>)
        ensures
            size == self@.used,
    {
        self.used
    }

    /// The space available to the snapshot, in bytes.
    pub fn available(&self) -> (size: Option<u128>)
        ensures
            size == self@.available,
    {
        self.available
    }

    /// The space that the snapshot refers to, in bytes.
    pub fn refer(&self) -> (size: Option<u128>)
        ensures
            size == self@.refer,
    {
        self.refer
    }

    /// The item that the fields of a line stand for.
    fn from_fields(fields: &Vec<String>) -> (item: ListItem)
        requires
            fields.len() > 0,
            texts(fields@)[0].len() > 0,
        ensures
            item@ == (ListEntry {
                name: texts(fields@)[0],
                used: size_field(texts(fields@), 1),
                available: size_field(texts(fields@), 2),
                refer: size_field(texts(fields@), 3),
            }),
    {
        let used = read_size(fields, 1);
        let available = read_size(fields, 2);
        let refer = read_size(fields, 3);
        ListItem::new(fields[0].as_str(), used, available, refer)
    }

    /// Reads one line of the listing. The line must hold a name; the sizes
    /// are read as far as they are there.
    pub fn from_str(s: &str) -> (r: Result<ListItem, ParserError>)
        requires
            fields(s@).len() > 0,
        ensures
            r matches Ok(item) && item@ == entry_of_line(s@),
    {
        let line = chars_of(s);
        let fields = split_fields(&line);
        proof {
            lemma_first_field(line@);
        }
        Ok(ListItem::from_fields(&fields))
    }
}

impl View for List {
    type V = Seq<ListEntry>;

    closed spec fn view(&self) -> Seq<ListEntry> {
        self.0@.map_values(|item: ListItem| item@)
    }
}

impl List {
    /// The number of items.
    pub fn len(&self) -> (n: usize)
        ensures
            n == self@.len(),
    {
        self.0.len()
    }

    /// The item at position `i`.
    pub fn get(&self, i: usize) -> (item: &ListItem)
        requires
            i < self@.len(),
        ensures
            item@ == self@[i as int],
    {
        &self.0[i]
    }

    /// An iterator over the items, first to last.
    pub fn iter(&self) -> (it: std::slice::Iter<'_, ListItem>)
        ensures
            it.remaining().len() == self@.len(),
            forall|i: int| 0 <= i < self@.len() ==> (#[trigger] it.remaining()[i])@ == self@[i],
            IteratorSpec::decrease(&it) is Some,
            IteratorSpec::initial_value_relation(&it, &it),
    {
        broadcast use vstd::std_specs::slice::axiom_spec_slice_iter;

        self.0.as_slice().iter()
    }

    /// Reads a listing: every line that is not blank gives one item.
    pub fn from_str(s: &str) -> (r: Result<List, ParserError>)
        ensures
            r matches Ok(list) && list@ == listing(s@),
    {
        let text = chars_of(s);
        let lines = split_lines(&text);
        let mut items: Vec<ListItem> = Vec::new();
        let mut i: usize = 0;
        while i < lines.len()
            invariant
                i <= lines.len(),
                items@.map_values(|item: ListItem| item@) == entries_of_lines(
                    rows(lines@).take(i as int),
                ),
            decreases lines.len() - i,
        {
            let fields = split_fields(&lines[i]);
            proof {
                let done = rows(lines@).take(i + 1);
                assert(done.drop_last() == rows(lines@).take(i as int));
                assert(done.last() == lines@[i as int]@);
            }
            if fields.len() > 0 {
                proof {
                    lemma_first_field(lines@[i as int]@);
                }
                let item = ListItem::from_fields(&fields);
                assert(items@.push(item).map_values(|item: ListItem| item@) == items@.map_values(
                    |item: ListItem| item@,
                ).push(item@));
                items.push(item);
            }
            i += 1;
        }
        assert(rows(lines@).take(lines.len() as int) == rows(lines@));
        Ok(List(items))
    }
}

} // verus!
