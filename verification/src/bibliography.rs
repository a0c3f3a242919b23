//! The bibliography entry model: a typed, already-parsed bibliography
//! record. Records arrive from an external bibliographic-data parser; the
//! surrounding I/O layer converts them into this representation, which
//! holds exactly what the citation logic reads. Each type has a
//! mathematical view that the contracts speak of.

use vstd::prelude::*;

verus! {

/// One name on a bibliography record.
#[derive(Debug, Clone)]
pub struct Person {
    /// The family name (surname).
    pub name: String,
    /// The given name.
    pub given_name: String,
}

/// The view of a [`Person`].
#[verifier::ext_equal]
pub struct PersonV {
    pub name: Seq<char>,
    pub given_name: Seq<char>,
}

impl View for Person {
    type V = PersonV;

    open spec fn view(&self) -> PersonV {
        PersonV { name: self.name@, given_name: self.given_name@ }
    }
}

impl DeepView for Person {
    type V = PersonV;

    open spec fn deep_view(&self) -> PersonV {
        self.view()
    }
}

/// The kind of a bibliography record. Only books and articles are
/// rendered; anything else is skipped with a notice.
#[derive(Debug, Clone, Copy, PartialEq, Eq, Structural)]
pub enum EntryType {
    Book,
    Article,
    Other,
}

/// A date as the bibliography gives it: an exact point, a bound, or a
/// range. Only the years are kept; they are all the logic reads.
#[derive(Debug, Clone, Copy, PartialEq, Eq, Structural)]
pub enum DateValue {
    At(i32),
    After(i32),
    Before(i32),
    Between(i32, i32),
}

/// A date field.
#[derive(Debug, Clone, Copy, PartialEq, Eq, Structural)]
pub struct Date {
    pub value: DateValue,
}

/// A permissive field: a value may arrive typed, or in some looser
/// representation that the logic does not read.
#[derive(Debug, Clone, Copy, PartialEq, Eq, Structural)]
pub enum PermissiveType<T> {
    Typed(T),
    Other,
}

/// A page range of an article.
#[derive(Debug, Clone, Copy, PartialEq, Eq, Structural)]
pub struct PageRange {
    pub start: u32,
    pub end: u32,
}

/// A piece of a formatted field; only normal text is kept when a field is
/// flattened to a string.
#[derive(Debug, Clone)]
pub enum Chunk {
    Normal(String),
    Verbatim(String),
    Math(String),
}

/// The view of a [`Chunk`].
#[verifier::ext_equal]
pub enum ChunkV {
    Normal(Seq<char>),
    Verbatim(Seq<char>),
    Math(Seq<char>),
}

impl View for Chunk {
    type V = ChunkV;

    open spec fn view(&self) -> ChunkV {
        match self {
            Chunk::Normal(s) => ChunkV::Normal(s@),
            Chunk::Verbatim(s) => ChunkV::Verbatim(s@),
            Chunk::Math(s) => ChunkV::Math(s@),
        }
    }
}

impl DeepView for Chunk {
    type V = ChunkV;

    open spec fn deep_view(&self) -> ChunkV {
        self.view()
    }
}

/// The view of a permissive pages field.
#[verifier::ext_equal]
pub enum PagesV {
    Typed(Seq<PageRange>),
    Other,
}

/// An already-parsed bibliography record. A field that the source did not
/// carry is `None`; an entry lacking an author or a resolvable year never
/// matches a citation and never makes the run fail.
#[derive(Debug, Clone)]
pub struct Entry {
    /// The unique citation key.
    pub key: String,
    pub entry_type: EntryType,
    pub authors: Option<Vec<Person>>,
    pub date: Option<PermissiveType<Date>>,
    pub title: Option<Vec<Chunk>>,
    pub publisher: Option<Vec<Vec<Chunk>>>,
    pub address: Option<Vec<Chunk>>,
    pub journal: Option<Vec<Chunk>>,
    pub volume: Option<PermissiveType<i64>>,
    pub number: Option<Vec<Chunk>>,
    pub pages: Option<PermissiveType<Vec<PageRange>>>,
    pub translators: Option<Vec<Person>>,
    pub doi: Option<String>,
}

/// The view of an [`Entry`].
#[verifier::ext_equal]
pub struct EntryV {
    pub key: Seq<char>,
    pub entry_type: EntryType,
    pub authors: Option<Seq<PersonV>>,
    pub date: Option<PermissiveType<Date>>,
    pub title: Option<Seq<ChunkV>>,
    pub publisher: Option<Seq<Seq<ChunkV>>>,
    pub address: Option<Seq<ChunkV>>,
    pub journal: Option<Seq<ChunkV>>,
    pub volume: Option<PermissiveType<i64>>,
    pub number: Option<Seq<ChunkV>>,
    pub pages: Option<PagesV>,
    pub translators: Option<Seq<PersonV>>,
    pub doi: Option<Seq<char>>,
}

impl View for Entry {
    type V = EntryV;

    open spec fn view(&self) -> EntryV {
        EntryV {
            key: self.key@,
            entry_type: self.entry_type,
            authors: match self.authors {
                Some(a) => Some(a.deep_view()),
                None => None,
            },
            date: self.date,
            title: match self.title {
                Some(t) => Some(t.deep_view()),
                None => None,
            },
            publisher: match self.publisher {
                Some(p) => Some(p.deep_view()),
                None => None,
            },
            address: match self.address {
                Some(a) => Some(a.deep_view()),
                None => None,
            },
            journal: match self.journal {
                Some(j) => Some(j.deep_view()),
                None => None,
            },
            volume: self.volume,
            number: match self.number {
                Some(n) => Some(n.deep_view()),
                None => None,
            },
            pages: match self.pages {
                Some(p) => match p {
                    PermissiveType::Typed(rs) => Some(PagesV::Typed(rs@)),
                    PermissiveType::Other => Some(PagesV::Other),
                },
                None => None,
            },
            translators: match self.translators {
                Some(t) => Some(t.deep_view()),
                None => None,
            },
            doi: match self.doi {
                Some(d) => Some(d@),
                None => None,
            },
        }
    }
}

impl DeepView for Entry {
    type V = EntryV;

    open spec fn deep_view(&self) -> EntryV {
        self.view()
    }
}

impl Person {
    /// An explicit copy with a known view, since a derived clone carries
    /// no specification.
    pub fn duplicate(&self) -> (r: Person)
        ensures
            r@ == self@,
    {
        Person { name: self.name.clone(), given_name: self.given_name.clone() }
    }
}

/// An explicit copy of a list of persons.
pub fn duplicate_persons(v: &Vec<Person>) -> (r: Vec<Person>)
    ensures
        r.deep_view() == v.deep_view(),
{
    let mut out: Vec<Person> = Vec::new();
    let mut i: usize = 0;
    while i < v.len()
        invariant
            i <= v.len(),
            out.deep_view() == v.deep_view().subrange(0, i as int),
        decreases v.len() - i,
    {
        let ghost prev = out.deep_view();
        let p = v[i].duplicate();
        proof {
            assert(p@ == v@[i as int]@);
        }
        out.push(p);
        proof {
            assert(out.deep_view() =~~= prev.push(v@[i as int]@));
            assert(v.deep_view().subrange(0, i + 1) =~~= v.deep_view().subrange(0, i as int).push(
                v@[i as int]@,
            ));
        }
        i += 1;
    }
    proof {
        assert(out.deep_view() =~~= v.deep_view());
    }
    out
}

impl Chunk {
    /// An explicit copy with a known view.
    pub fn duplicate(&self) -> (r: Chunk)
        ensures
            r@ == self@,
    {
        match self {
            Chunk::Normal(s) => Chunk::Normal(s.clone()),
            Chunk::Verbatim(s) => Chunk::Verbatim(s.clone()),
            Chunk::Math(s) => Chunk::Math(s.clone()),
        }
    }
}

/// An explicit copy of a formatted field.
pub fn duplicate_chunks(v: &Vec<Chunk>) -> (r: Vec<Chunk>)
    ensures
        r.deep_view() == v.deep_view(),
{
    let mut out: Vec<Chunk> = Vec::new();
    let mut i: usize = 0;
    while i < v.len()
        invariant
            i <= v.len(),
            out.deep_view() == v.deep_view().subrange(0, i as int),
        decreases v.len() - i,
    {
        let ghost prev = out.deep_view();
        let c = v[i].duplicate();
        proof {
            assert(c@ == v@[i as int]@);
        }
        out.push(c);
        proof {
            assert(out.deep_view() =~~= prev.push(v@[i as int]@));
            assert(v.deep_view().subrange(0, i + 1) =~~= v.deep_view().subrange(0, i as int).push(
                v@[i as int]@,
            ));
        }
        i += 1;
    }
    proof {
        assert(out.deep_view() =~~= v.deep_view());
    }
    out
}

/// An explicit copy of a list of formatted fields.
pub fn duplicate_chunk_lists(v: &Vec<Vec<Chunk>>) -> (r: Vec<Vec<Chunk>>)
    ensures
        r.deep_view() == v.deep_view(),
{
    let mut out: Vec<Vec<Chunk>> = Vec::new();
    let mut i: usize = 0;
    while i < v.len()
        invariant
            i <= v.len(),
            out.deep_view() == v.deep_view().subrange(0, i as int),
        decreases v.len() - i,
    {
        let ghost prev = out.deep_view();
        let c = duplicate_chunks(&v[i]);
        proof {
            assert(c.deep_view() == v@[i as int].deep_view());
        }
        out.push(c);
        proof {
            assert(out.deep_view() =~~= prev.push(v@[i as int].deep_view()));
            assert(v.deep_view().subrange(0, i + 1) =~~= v.deep_view().subrange(0, i as int).push(
                v@[i as int].deep_view(),
            ));
        }
        i += 1;
    }
    proof {
        assert(out.deep_view() =~~= v.deep_view());
    }
    out
}

/// An explicit copy of a list of page ranges.
pub fn duplicate_page_ranges(v: &Vec<PageRange>) -> (r: Vec<PageRange>)
    ensures
        r@ == v@,
{
    let mut out: Vec<PageRange> = Vec::new();
    let mut i: usize = 0;
    while i < v.len()
        invariant
            i <= v.len(),
            out@ == v@.subrange(0, i as int),
        decreases v.len() - i,
    {
        out.push(v[i]);
        proof {
            assert(out@ =~= v@.subrange(0, i + 1));
        }
        i += 1;
    }
    proof {
        assert(out@ =~= v@);
    }
    out
}

impl Entry {
    /// An explicit copy with a known view, since a derived clone carries
    /// no specification.
    pub fn duplicate(&self) -> (r: Entry)
        ensures
            r@ == self@,
    {
        let r = Entry {
            key: self.key.clone(),
            entry_type: self.entry_type,
            authors: match &self.authors {
                Some(a) => Some(duplicate_persons(a)),
                None => None,
            },
            date: match &self.date {
                Some(d) => Some(*d),
                None => None,
            },
            title: match &self.title {
                Some(t) => Some(duplicate_chunks(t)),
                None => None,
            },
            publisher: match &self.publisher {
                Some(p) => Some(duplicate_chunk_lists(p)),
                None => None,
            },
            address: match &self.address {
                Some(a) => Some(duplicate_chunks(a)),
                None => None,
            },
            journal: match &self.journal {
                Some(j) => Some(duplicate_chunks(j)),
                None => None,
            },
            volume: match &self.volume {
                Some(v) => Some(*v),
                None => None,
            },
            number: match &self.number {
                Some(n) => Some(duplicate_chunks(n)),
                None => None,
            },
            pages: match &self.pages {
                Some(p) => Some(
                    match p {
                        PermissiveType::Typed(rs) => PermissiveType::Typed(
                            duplicate_page_ranges(rs),
                        ),
                        PermissiveType::Other => PermissiveType::Other,
                    },
                ),
                None => None,
            },
            translators: match &self.translators {
                Some(t) => Some(duplicate_persons(t)),
                None => None,
            },
            doi: match &self.doi {
                Some(d) => Some(d.clone()),
                None => None,
            },
        };
        proof {
            assert(r@ =~~= self@);
        }
        r
    }
}

/// The year a permissive date resolves to: the exact or bounding year, or
/// the start of a range.
pub open spec fn year_of_date(d: PermissiveType<Date>) -> Option<int> {
    match d {
        PermissiveType::Typed(date) => match date.value {
            DateValue::At(y) => Some(y as int),
            DateValue::After(y) => Some(y as int),
            DateValue::Before(y) => Some(y as int),
            DateValue::Between(y, _end) => Some(y as int),
        },
        PermissiveType::Other => None,
    }
}

/// The year an entry resolves to, when it has one.
pub open spec fn year_of_entry(e: EntryV) -> Option<int> {
    match e.date {
        Some(d) => year_of_date(d),
        None => None,
    }
}

/// The primary author's surname, when the entry has an author.
pub open spec fn surname_of_entry(e: EntryV) -> Option<Seq<char>> {
    match e.authors {
        Some(authors) => if authors.len() > 0 {
            Some(authors[0].name)
        } else {
            None
        },
        None => None,
    }
}

} // verus!
