use vstd::prelude::*;

verus! {

/// Why reading or writing an asset failed.
#[derive(Debug, Clone, Copy, PartialEq, Eq, Structural)]
pub enum Error {
    /// The stream is not at the offset that the summary declares for a section.
    PositionMismatch { expected: u64, actual: u64 },
    /// A name, import or export index lies outside its table.
    IndexOutOfRange,
    /// A property type name is not one of the known enumerators.
    UnknownTypeName,
    /// A property bag consumed more bytes than its export declares.
    SizeOverrun,
    /// The reader reached its limit before a value was complete.
    PrematureEof,
    /// A name that has to be written is not in the name table.
    MissingName,
    /// A length-prefixed string declares length zero, so it has no terminator.
    EmptyString,
    /// The bytes of a string are not UTF-8.
    InvalidUtf8,
    /// An array of struct elements does not start with an element header.
    MissingElementHeader,
    /// A pattern asks for a width that its kind does not have.
    InvalidWidth,
    /// A number does not fit the width it is stored with.
    ValueOutOfRange,
    /// A value is not of the kind that its tag or type announces.
    KindMismatch,
    /// A length does not fit the field that stores it.
    TooLong,
    /// The number of property bags differs from the number of exports.
    BagCount,
    /// Two offsets of the summary are out of order.
    BadOffsets,
    /// A seek would leave the addressable range.
    InvalidSeek,
    /// A struct pattern document is malformed.
    InvalidPattern,
    /// The trailing sentinel of the body file differs from the summary's tag.
    BadTrailer,
    /// Re-serialized bytes differ from the input, first at this offset
    /// (or in length, when one is a prefix of the other).
    RoundTripInequality { offset: u64 },
}

/// A part of an asset in which reading or writing went on when it failed.
#[derive(Debug, Clone, Copy, PartialEq, Eq, Structural)]
pub enum Place {
    /// The header file.
    Header,
    /// The body file.
    Body,
    /// The summary of the header file.
    Summary,
    /// The name table.
    Names,
    /// The import table.
    Imports,
    /// The export table.
    Exports,
    /// The depends section.
    Depends,
    /// The asset registry.
    AssetRegistry,
    /// The preload dependencies.
    PreloadDependencies,
    /// The property bag of the export of that number, counted from 0.
    Bag(usize),
    /// The name, the type and the size that a property starts with.
    Meta,
    /// The tag of a property.
    Tag,
    /// The element of an array of that number, counted from 0.
    Element(usize),
    /// The key of the entry of a map of that number, counted from 0.
    Key(usize),
    /// The value of the entry of a map of that number, counted from 0.
    Value(usize),
    /// The named part of a struct of that number, counted from 0.
    Field(usize),
    /// The entry of a table that starts at that offset of its file.
    Entry(u64),
    /// The property of that number of its list, counted from 0.
    Member(usize),
    /// The property that starts at that offset of its file.
    Property(u64),
    /// The tag at the end of the body file.
    Trailer,
}

/// An error together with the parts of the asset that were entered when
/// it came up, the outermost first.
#[derive(Debug, Clone, PartialEq, Eq)]
pub struct Failure {
    pub error: Error,
    pub trail: Vec<Place>,
}

/// Whether a result is the failure with the given error and trail.
pub open spec fn fails_with<T>(r: Result<T, Failure>, error: Error, trail: Seq<Place>) -> bool {
    &&& r is Err
    &&& r->Err_0.error == error
    &&& r->Err_0.trail@ == trail
}

/// The result with its error, if it has one, as a failure in no named
/// part.
pub fn unplaced<T>(r: Result<T, Error>) -> (out: Result<T, Failure>)
    ensures
        match r {
            Ok(v) => out == Ok::<T, Failure>(v),
            Err(e) => fails_with(out, e, Seq::empty()),
        },
{
    match r {
        Ok(v) => Ok(v),
        Err(e) => Err(Failure::plain(e)),
    }
}

impl Failure {
    /// The failure of an error that came up in no named part.
    pub fn plain(error: Error) -> (r: Self)
        ensures
            r.error == error,
            r.trail@ == Seq::<Place>::empty(),
    {
        Failure { error, trail: Vec::new() }
    }

    /// The failure of an error that came up in one part.
    pub fn at(error: Error, place: Place) -> (r: Self)
        ensures
            r.error == error,
            r.trail@ == seq![place],
    {
        let mut trail: Vec<Place> = Vec::new();
        trail.push(place);
        Failure { error, trail }
    }

    /// The failure as it is seen from outside a part that holds the
    /// parts of its trail.
    pub fn within(self, place: Place) -> (r: Self)
        ensures
            r.error == self.error,
            r.trail@ == seq![place] + self.trail@,
    {
        let mut trail = self.trail;
        trail.insert(0, place);
        assert(trail@ =~= seq![place] + self.trail@);
        Failure { error: self.error, trail }
    }
}

} // verus!
