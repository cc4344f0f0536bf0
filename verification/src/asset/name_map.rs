use vstd::prelude::*;
use vstd::string::StrSliceExecFns;
use vstd::string::StringExecFns;
use vstd::utf8::encode_utf8;
use crate::asset::file_summary::FileSummary;
use crate::error::Error;
use crate::reader::ByteReader;
use crate::util::avail;
use crate::util::enc_string;
use crate::util::enc_u16;
use crate::util::enc_u32;
use crate::util::parse_string;
use crate::util::read_string;
use crate::util::read_u16;
use crate::util::read_u32;
use crate::util::reads;
use crate::util::reads_as;
use crate::util::str_eq;
use crate::util::u16_at;
use crate::util::u32_at;
use crate::util::write_string;
use crate::util::write_u16;
use crate::util::write_u32;

verus! {

/// An entry of the name table: the string and its two hash slots.
#[derive(Debug, Clone, PartialEq, Eq)]
pub struct Name {
    pub index: u32,
    pub name: String,
    pub non_case_preserving_hash: u16,
    pub case_preserving_hash: u16,
}

/// A [`Name`] as plain values.
pub struct NameModel {
    pub index: u32,
    pub name: Seq<char>,
    pub non_case_preserving_hash: u16,
    pub case_preserving_hash: u16,
}

impl View for Name {
    type V = NameModel;

    open spec fn view(&self) -> NameModel {
        NameModel {
            index: self.index,
            name: self.name@,
            non_case_preserving_hash: self.non_case_preserving_hash,
            case_preserving_hash: self.case_preserving_hash,
        }
    }
}

/// A name is its string, then the two hashes. Its index is not stored.
pub open spec fn parse_name(d: Seq<u8>, p: int, e: int) -> Result<(NameModel, int), Error> {
    match parse_string(d, p, e) {
        Err(err) => Err(err),
        Ok((name, q)) => if 4 > avail(q, e) {
            Err(Error::PrematureEof)
        } else {
            Ok(
                (
                    NameModel {
                        index: 0,
                        name,
                        non_case_preserving_hash: u16_at(d, q),
                        case_preserving_hash: u16_at(d, q + 2),
                    },
                    q + 4,
                ),
            )
        },
    }
}

pub open spec fn enc_name(n: NameModel) -> Seq<u8> {
    enc_string(n.name) + enc_u16(n.non_case_preserving_hash) + enc_u16(n.case_preserving_hash)
}

/// Whether a name can be written: its length fits the length field.
pub open spec fn name_fits(n: NameModel) -> bool {
    encode_utf8(n.name).len() < u32::MAX
}

/// The bytes that a name takes: a length, the string, its terminator, the hashes.
pub open spec fn name_size(n: NameModel) -> nat {
    4 + encode_utf8(n.name).len() + 1 + 2 + 2
}

impl Name {
    pub fn read(rdr: &mut ByteReader) -> (r: Result<Self, Error>)
        ensures
            reads_as(
                old(rdr)@,
                final(rdr)@,
                r,
                parse_name(old(rdr)@.data, old(rdr)@.pos as int, old(rdr)@.bound()),
            ),
    {
        let name = read_string(rdr)?;
        if rdr.available() < 4 {
            return Err(Error::PrematureEof);
        }
        let non_case_preserving_hash = read_u16(rdr)?;
        let case_preserving_hash = read_u16(rdr)?;
        Ok(Name { index: 0, name, non_case_preserving_hash, case_preserving_hash })
    }

    pub fn write(&self, out: &mut Vec<u8>) -> (r: Result<(), Error>)
        ensures
            name_fits(self@) ==> r is Ok && final(out)@ == old(out)@ + enc_name(self@),
            !name_fits(self@) ==> r == Err::<(), Error>(Error::TooLong) && final(out)@ == old(
                out)@,
    {
        write_string(out, self.name.as_str())?;
        write_u16(out, self.non_case_preserving_hash);
        write_u16(out, self.case_preserving_hash);
        assert(out@ =~= old(out)@ + enc_name(self@));
        Ok(())
    }
}

/* Looking names up */

/// The views of the entries of a table.
pub open spec fn name_models(names: Seq<Name>) -> Seq<NameModel> {
    names.map_values(|n: Name| n@)
}

/// Whether the table holds the string.
pub open spec fn has_name(names: Seq<NameModel>, s: Seq<char>) -> bool {
    exists|i: int| 0 <= i < names.len() && #[trigger] names[i].name == s
}

/// Whether `i` is the first place at which the table holds the string.
pub open spec fn is_first(names: Seq<NameModel>, s: Seq<char>, i: int) -> bool {
    &&& 0 <= i < names.len()
    &&& names[i].name == s
    &&& forall|j: int| 0 <= j < i ==> (#[trigger] names[j]).name != s
}

/// The table after `s` was added: unchanged if it holds `s`, else with a
/// new entry at its end.
pub open spec fn with_name(names: Seq<NameModel>, s: Seq<char>) -> Seq<NameModel> {
    if has_name(names, s) {
        names
    } else {
        names.push(
            NameModel {
                index: names.len() as u32,
                name: s,
                non_case_preserving_hash: 0,
                case_preserving_hash: 0,
            },
        )
    }
}

/* The surface form of a name: `name`, or `name_variant` */

pub open spec fn is_digit(c: char) -> bool {
    48 <= c as int <= 57
}

pub open spec fn digit_char(d: nat) -> char {
    if d == 0 {
        '0'
    } else if d == 1 {
        '1'
    } else if d == 2 {
        '2'
    } else if d == 3 {
        '3'
    } else if d == 4 {
        '4'
    } else if d == 5 {
        '5'
    } else if d == 6 {
        '6'
    } else if d == 7 {
        '7'
    } else if d == 8 {
        '8'
    } else {
        '9'
    }
}

pub open spec fn all_digits(s: Seq<char>) -> bool {
    forall|i: int| 0 <= i < s.len() ==> is_digit(#[trigger] s[i])
}

/// The number that a string of digits writes.
pub open spec fn decimal_value(s: Seq<char>) -> nat
    decreases s.len(),
{
    if s.len() == 0 {
        0
    } else {
        (decimal_value(s.drop_last()) * 10 + (s.last() as int - 48)) as nat
    }
}

/// The digits that write a number, without leading zeros.
pub open spec fn decimal_chars(n: nat) -> Seq<char>
    decreases n,
{
    if n < 10 {
        seq![digit_char(n)]
    } else {
        decimal_chars(n / 10).push(digit_char(n % 10))
    }
}

/// The variant that a suffix writes: digits, with or without a plus sign
/// before them, whose number fits 32 bits.
pub open spec fn parse_variant(s: Seq<char>) -> Option<u32> {
    let digits = if s.len() > 0 && s[0] == '+' {
        s.drop_first()
    } else {
        s
    };
    if digits.len() > 0 && all_digits(digits) && decimal_value(digits) <= u32::MAX {
        Some(decimal_value(digits) as u32)
    } else {
        None
    }
}

/// The place of the last underscore, or -1.
pub open spec fn last_underscore(s: Seq<char>) -> int
    decreases s.len(),
{
    if s.len() == 0 {
        -1
    } else if s.last() == '_' {
        s.len() - 1
    } else {
        last_underscore(s.drop_last())
    }
}

/// What lies before the last underscore and the variant that follows it,
/// where the text has that shape.
pub open spec fn split_surface(s: Seq<char>) -> Option<(Seq<char>, u32)> {
    let i = last_underscore(s);
    if i < 0 {
        None
    } else {
        match parse_variant(s.subrange(i + 1, s.len() as int)) {
            Some(v) => Some((s.subrange(0, i), v)),
            None => None,
        }
    }
}

/// The base name and the variant that a text stands for, whatever the
/// table holds: the split where the text has that shape, else the text.
pub open spec fn surface_parts(s: Seq<char>) -> (Seq<char>, u32) {
    match split_surface(s) {
        Some(parts) => parts,
        None => (s, 0),
    }
}

/// The base name and the variant that a text stands for in a table: the
/// split where the text has that shape and the table holds what lies before
/// the underscore, else the whole text where the table holds it.
pub open spec fn resolve(names: Seq<NameModel>, s: Seq<char>) -> Option<(Seq<char>, u32)> {
    if split_surface(s) is Some && has_name(names, split_surface(s)->Some_0.0) {
        split_surface(s)
    } else if has_name(names, s) {
        Some((s, 0))
    } else {
        None
    }
}

/// The text that stands for a base name and a variant.
pub open spec fn surface(name: Seq<char>, variant: u32) -> Seq<char> {
    if variant == 0 {
        name
    } else {
        name + seq!['_'] + decimal_chars(variant as nat)
    }
}

proof fn lemma_decimal_value_grows(s: Seq<char>, k: int)
    requires
        all_digits(s),
        0 <= k <= s.len(),
    ensures
        decimal_value(s.take(k)) <= decimal_value(s),
    decreases s.len() - k,
{
    if k < s.len() {
        lemma_decimal_value_grows(s, k + 1);
        assert(s.take(k + 1).drop_last() =~= s.take(k));
        assert(is_digit(s[k]));
    } else {
        assert(s.take(k) =~= s);
    }
}

/// The number that a digit writes.
fn digit_of(c: char) -> (r: Option<u32>)
    ensures
        match r {
            Some(d) => is_digit(c) && d == c as int - 48,
            None => !is_digit(c),
        },
{
    if c == '0' {
        Some(0)
    } else if c == '1' {
        Some(1)
    } else if c == '2' {
        Some(2)
    } else if c == '3' {
        Some(3)
    } else if c == '4' {
        Some(4)
    } else if c == '5' {
        Some(5)
    } else if c == '6' {
        Some(6)
    } else if c == '7' {
        Some(7)
    } else if c == '8' {
        Some(8)
    } else if c == '9' {
        Some(9)
    } else {
        None
    }
}

/// The chars of a string.
pub fn chars_of(s: &str) -> (r: Vec<char>)
    ensures
        r@ == s@,
{
    let n = s.unicode_len();
    let mut r: Vec<char> = Vec::new();
    let mut i: usize = 0;
    while i < n
        invariant
            0 <= i <= n,
            n == s@.len(),
            r@ == s@.take(i as int),
        decreases n - i,
    {
        let c = s.get_char(i);
        r.push(c);
        assert(r@ =~= s@.take(i + 1));
        i = i + 1;
    }
    assert(s@.take(n as int) =~= s@);
    r
}

/// The variant that the chars from `from` on write.
pub fn variant_of(cs: &Vec<char>, from: usize) -> (r: Option<u32>)
    requires
        from <= cs@.len(),
    ensures
        r == parse_variant(cs@.subrange(from as int, cs@.len() as int)),
{
    let n = cs.len();
    let ghost s = cs@.subrange(from as int, n as int);
    let start = if from < n && cs[from] == '+' {
        from + 1
    } else {
        from
    };
    let ghost digits = cs@.subrange(start as int, n as int);
    assert(digits =~= if s.len() > 0 && s[0] == '+' {
        s.drop_first()
    } else {
        s
    });
    if start == n {
        return None;
    }
    let ghost wanted = parse_variant(s);
    let mut value: u64 = 0;
    let mut i: usize = start;
    while i < n
        invariant
            start <= i <= n,
            n == cs@.len(),
            digits == cs@.subrange(start as int, n as int),
            wanted == parse_variant(cs@.subrange(from as int, cs@.len() as int)),
            wanted == if digits.len() > 0 && all_digits(digits) && decimal_value(digits)
                <= u32::MAX {
                Some(decimal_value(digits) as u32)
            } else {
                None
            },
            all_digits(digits.take(i - start)),
            value == decimal_value(digits.take(i - start)),
            value <= u32::MAX,
        decreases n - i,
    {
        let digit = match digit_of(cs[i]) {
            Some(digit) => digit,
            None => {
                assert(!is_digit(digits[i - start]));
                return None;
            },
        };
        let next = value * 10 + digit as u64;
        proof {
            assert(digits.take(i - start + 1).drop_last() =~= digits.take(i - start));
            assert(next == decimal_value(digits.take(i - start + 1)));
            assert forall|j: int| 0 <= j < i - start + 1 implies is_digit(
                #[trigger] digits.take(i - start + 1)[j],
            ) by {
                if j < i - start {
                    assert(digits.take(i - start + 1)[j] == digits.take(i - start)[j]);
                }
            }
        }
        if next > u32::MAX as u64 {
            proof {
                if all_digits(digits) {
                    lemma_decimal_value_grows(digits, i - start + 1);
                }
            }
            return None;
        }
        value = next;
        i = i + 1;
    }
    assert(digits.take(n - start) =~= digits);
    Some(value as u32)
}

/// The place of the last underscore, if there is one.
fn find_last_underscore(cs: &Vec<char>) -> (r: Option<usize>)
    ensures
        match r {
            Some(i) => i == last_underscore(cs@) && i < cs@.len(),
            None => last_underscore(cs@) < 0,
        },
{
    let mut i: usize = cs.len();
    assert(cs@.take(cs@.len() as int) =~= cs@);
    while i > 0
        invariant
            0 <= i <= cs@.len(),
            last_underscore(cs@) == last_underscore(cs@.take(i as int)),
        decreases i,
    {
        if cs[i - 1] == '_' {
            return Some(i - 1);
        }
        assert(cs@.take(i as int).drop_last() =~= cs@.take(i - 1));
        i = i - 1;
    }
    None
}

/// One decimal digit as text.
fn digit_str(d: u32) -> (r: &'static str)
    requires
        d < 10,
    ensures
        r@ == seq![digit_char(d as nat)],
{
    proof {
        reveal_strlit("0");
        reveal_strlit("1");
        reveal_strlit("2");
        reveal_strlit("3");
        reveal_strlit("4");
        reveal_strlit("5");
        reveal_strlit("6");
        reveal_strlit("7");
        reveal_strlit("8");
        reveal_strlit("9");
    }
    let r = if d == 0 {
        "0"
    } else if d == 1 {
        "1"
    } else if d == 2 {
        "2"
    } else if d == 3 {
        "3"
    } else if d == 4 {
        "4"
    } else if d == 5 {
        "5"
    } else if d == 6 {
        "6"
    } else if d == 7 {
        "7"
    } else if d == 8 {
        "8"
    } else {
        "9"
    };
    assert(r@ =~= seq![digit_char(d as nat)]);
    r
}

/// Appends the decimal digits of a number.
fn append_decimal(s: &mut String, v: u32)
    ensures
        final(s)@ == old(s)@ + decimal_chars(v as nat),
    decreases v,
{
    if v >= 10 {
        append_decimal(s, v / 10);
    }
    s.append(digit_str(v % 10));
    assert(s@ =~= old(s)@ + decimal_chars(v as nat));
}

/// A reference to a name: its place in the name table and a variant
/// number. It prints as `name`, or as `name_variant` when the variant is
/// not zero.
#[derive(Debug, Clone, Copy, PartialEq, Eq, Structural)]
pub struct NameVariant {
    pub name_idx: usize,
    pub variant: u32,
}

/// A name reference is the index of the name, then the variant.
pub open spec fn parse_name_variant(d: Seq<u8>, p: int, e: int, names: int) -> Result<
    (NameVariant, int),
    Error,
> {
    if 4 > avail(p, e) {
        Err(Error::PrematureEof)
    } else if u32_at(d, p) >= names {
        Err(Error::IndexOutOfRange)
    } else if 8 > avail(p, e) {
        Err(Error::PrematureEof)
    } else {
        Ok((NameVariant { name_idx: u32_at(d, p) as usize, variant: u32_at(d, p + 4) }, p + 8))
    }
}

pub open spec fn enc_name_variant(n: NameVariant) -> Seq<u8> {
    enc_u32(n.name_idx as u32) + enc_u32(n.variant)
}

/// Whether a name reference can be written against a table of `names`
/// entries: it points into the table and its index fits 32 bits.
pub open spec fn name_variant_fits(n: NameVariant, names: int) -> bool {
    n.name_idx < names && n.name_idx <= u32::MAX
}

impl NameVariant {
    /// The reference to `name` with the given variant.
    pub fn new(name: &str, variant: u32, names: &NameMap) -> (r: Self)
        requires
            has_name(names@, name@),
        ensures
            is_first(names@, name@, r.name_idx as int),
            r.variant == variant,
    {
        let pos = names.expect(name);
        Self { name_idx: pos, variant }
    }

    /// Reads a surface text: `SomeName_6` is the name `SomeName` with
    /// variant 6 where the table holds `SomeName`; any other text is the
    /// name of that spelling with variant 0. The table has to hold the
    /// name that the text stands for.
    pub fn parse(txt: &str, names: &NameMap) -> (r: Self)
        requires
            resolve(names@, txt@) is Some,
        ensures
            is_first(names@, resolve(names@, txt@)->Some_0.0, r.name_idx as int),
            r == resolved_ref(names@, txt@),
    {
        match Self::try_parse(txt, names) {
            Some(name) => name,
            None => vstd::pervasive::unreached(),
        }
    }

    /// Reads a surface text as [`NameVariant::parse`] does; nothing where
    /// the table does not hold the name that the text stands for.
    pub fn try_parse(txt: &str, names: &NameMap) -> (r: Option<Self>)
        ensures
            match r {
                Some(name) => {
                    &&& resolve(names@, txt@) is Some
                    &&& is_first(names@, resolve(names@, txt@)->Some_0.0, name.name_idx as int)
                    &&& name == resolved_ref(names@, txt@)
                },
                None => resolve(names@, txt@) is None,
            },
    {
        let cs = chars_of(txt);
        let _ = cs.len();
        match find_last_underscore(&cs) {
            Some(i) => {
                match variant_of(&cs, i + 1) {
                    Some(variant) => {
                        let prefix = txt.substring_char(0, i);
                        match names.find(prefix) {
                            Some(pos) => {
                                proof {
                                    lemma_first_unique(names@, prefix@, pos as int, pos as int);
                                }
                                return Some(Self { name_idx: pos, variant });
                            },
                            None => {},
                        }
                    },
                    None => {},
                }
            },
            None => {},
        }
        match names.find(txt) {
            Some(pos) => {
                proof {
                    lemma_first_unique(names@, txt@, pos as int, pos as int);
                }
                Some(Self { name_idx: pos, variant: 0 })
            },
            None => None,
        }
    }

    /// Reads a surface text as [`NameVariant::parse`] does, after adding
    /// its base name to the table if the table lacks it.
    pub fn parse_and_add(txt: &str, names: &mut NameMap) -> (r: Self)
        ensures
            final(names)@ == with_name(old(names)@, surface_parts(txt@).0),
            is_first(final(names)@, surface_parts(txt@).0, r.name_idx as int),
            r == added_ref(final(names)@, txt@),
    {
        let cs = chars_of(txt);
        let _ = cs.len();
        match find_last_underscore(&cs) {
            Some(i) => {
                match variant_of(&cs, i + 1) {
                    Some(variant) => {
                        let prefix = txt.substring_char(0, i);
                        names.add(prefix);
                        let r = Self::new(prefix, variant, names);
                        proof {
                            lemma_first_unique(
                                names@,
                                prefix@,
                                r.name_idx as int,
                                r.name_idx as int,
                            );
                        }
                        return r;
                    },
                    None => {},
                }
            },
            None => {},
        }
        names.add(txt);
        let r = Self::new(txt, 0, names);
        proof {
            lemma_first_unique(names@, txt@, r.name_idx as int, r.name_idx as int);
        }
        r
    }

    pub fn read(rdr: &mut ByteReader, names: &NameMap) -> (r: Result<Self, Error>)
        ensures
            reads(
                old(rdr)@,
                final(rdr)@,
                r,
                parse_name_variant(
                    old(rdr)@.data,
                    old(rdr)@.pos as int,
                    old(rdr)@.bound(),
                    names@.len() as int,
                ),
            ),
    {
        let index = read_u32(rdr)?;
        if index as u64 >= names.names.len() as u64 {
            return Err(Error::IndexOutOfRange);
        }
        let variant = read_u32(rdr)?;
        Ok(Self { name_idx: index as usize, variant })
    }

    /// Writes the reference. One that points outside the table is refused,
    /// and nothing is written.
    pub fn write(&self, out: &mut Vec<u8>, names: &NameMap) -> (r: Result<(), Error>)
        ensures
            name_variant_fits(*self, names@.len() as int) ==> r is Ok && final(out)@ == old(out)@
                + enc_name_variant(*self),
            !name_variant_fits(*self, names@.len() as int) ==> r == Err::<(), Error>(
                Error::MissingName,
            ) && final(out)@ == old(out)@,
    {
        if self.name_idx >= names.names.len() || self.name_idx as u64 > u32::MAX as u64 {
            return Err(Error::MissingName);
        }
        write_u32(out, self.name_idx as u32);
        write_u32(out, self.variant);
        assert(out@ =~= old(out)@ + enc_name_variant(*self));
        Ok(())
    }

    /// The surface text of the reference.
    pub fn to_string(&self, names: &NameMap) -> (r: String)
        requires
            self.name_idx < names@.len(),
        ensures
            r@ == surface(names@[self.name_idx as int].name, self.variant),
    {
        let name = &names.names[self.name_idx];
        let mut s = name.name.clone();
        if self.variant != 0 {
            proof {
                reveal_strlit("_");
            }
            s.append("_");
            append_decimal(&mut s, self.variant);
            assert("_"@ =~= seq!['_']);
        }
        s
    }

    /// Whether the reference prints as `text`.
    pub fn is(&self, text: &str, names: &NameMap) -> (r: bool)
        requires
            self.name_idx < names@.len(),
        ensures
            r == (self.variant == 0 && names@[self.name_idx as int].name == text@),
    {
        self.variant == 0 && str_eq(names.names[self.name_idx].name.as_str(), text)
    }
}

/// One place at most is the first at which a table holds a string.
pub proof fn lemma_first_unique(names: Seq<NameModel>, s: Seq<char>, i: int, j: int)
    requires
        is_first(names, s, i),
        is_first(names, s, j),
    ensures
        i == j,
        i == first_index(names, s),
        has_name(names, s),
{
    assert forall|a: int, b: int| is_first(names, s, a) && is_first(names, s, b) implies a
        == b by {
        if a < b {
            assert(names[a].name == s);
        } else if b < a {
            assert(names[b].name == s);
        }
    }
}

/// The first place at which a table holds a string, where it holds it.
pub open spec fn first_index(names: Seq<NameModel>, s: Seq<char>) -> int {
    choose|i: int| is_first(names, s, i)
}

/// The reference that a text stands for in a table that holds its name.
pub open spec fn resolved_ref(names: Seq<NameModel>, text: Seq<char>) -> NameVariant {
    NameVariant {
        name_idx: first_index(names, resolve(names, text)->Some_0.0) as usize,
        variant: resolve(names, text)->Some_0.1,
    }
}

/// The reference that a text stands for in a table to which its base
/// name was added.
pub open spec fn added_ref(names: Seq<NameModel>, text: Seq<char>) -> NameVariant {
    NameVariant {
        name_idx: first_index(names, surface_parts(text).0) as usize,
        variant: surface_parts(text).1,
    }
}

/// A name reference that was written reads back.
pub proof fn lemma_name_variant_reads_back(d: Seq<u8>, p: int, e: int, n: NameVariant, names: int)
    requires
        name_variant_fits(n, names),
        crate::util::lies_at(d, p, enc_name_variant(n)),
        p + 8 <= e,
    ensures
        parse_name_variant(d, p, e, names) == Ok::<(NameVariant, int), Error>((n, p + 8)),
        enc_name_variant(n).len() == 8,
{
    crate::util::lemma_le_round_trip();
    crate::util::lemma_lies_at_split(d, p, enc_u32(n.name_idx as u32), enc_u32(n.variant));
    crate::util::lemma_u32_reads_back(d, p, e, n.name_idx as u32);
    crate::util::lemma_u32_reads_back(d, p + 4, e, n.variant);
}

/// Where a table holds a string, it holds it at a first place.
pub proof fn lemma_first_exists(names: Seq<NameModel>, s: Seq<char>, k: int)
    requires
        0 <= k < names.len(),
        names[k].name == s,
    ensures
        is_first(names, s, first_index(names, s)),
        first_index(names, s) <= k,
    decreases k,
{
    if exists|j: int| 0 <= j < k && (#[trigger] names[j]).name == s {
        let j = choose|j: int| 0 <= j < k && (#[trigger] names[j]).name == s;
        lemma_first_exists(names, s, j);
    } else {
        assert(is_first(names, s, k));
        lemma_first_unique(names, s, k, k);
    }
}

/// The first place of a string that a table holds.
pub proof fn lemma_first_index(names: Seq<NameModel>, s: Seq<char>)
    requires
        has_name(names, s),
    ensures
        is_first(names, s, first_index(names, s)),
{
    let k = choose|k: int| 0 <= k < names.len() && (#[trigger] names[k]).name == s;
    lemma_first_exists(names, s, k);
}

/* Printing and reading a name are inverse */

/// The digits that write a number are digits, none of them a sign or an
/// underscore, and they write that number.
pub proof fn lemma_decimal_chars(n: nat)
    ensures
        decimal_chars(n).len() > 0,
        all_digits(decimal_chars(n)),
        decimal_value(decimal_chars(n)) == n,
    decreases n,
{
    let last = if n >= 10 {
        n % 10
    } else {
        n
    };
    assert(digit_char(last) as int == 48 + last) by {
        assert('0' as int == 48);
        assert('1' as int == 49);
        assert('2' as int == 50);
        assert('3' as int == 51);
        assert('4' as int == 52);
        assert('5' as int == 53);
        assert('6' as int == 54);
        assert('7' as int == 55);
        assert('8' as int == 56);
        assert('9' as int == 57);
    }
    if n >= 10 {
        lemma_decimal_chars(n / 10);
        let head = decimal_chars(n / 10);
        let s = decimal_chars(n);
        assert(s.drop_last() =~= head);
        assert(s.last() == digit_char(n % 10));
        assert forall|i: int| 0 <= i < s.len() implies is_digit(#[trigger] s[i]) by {
            if i < head.len() {
                assert(s[i] == head[i]);
            }
        }
        assert(decimal_value(s) == decimal_value(head) * 10 + (n % 10));
    } else {
        let s = decimal_chars(n);
        assert(s.drop_last() =~= Seq::<char>::empty());
        assert(decimal_value(s.drop_last()) == 0);
        assert(s.last() == digit_char(n));
    }
}

/// Chars without an underscore behind a text leave its last underscore
/// where it is.
pub proof fn lemma_last_underscore_append(t: Seq<char>, suffix: Seq<char>)
    requires
        forall|i: int| 0 <= i < suffix.len() ==> suffix[i] != '_',
    ensures
        last_underscore(t + suffix) == last_underscore(t),
    decreases suffix.len(),
{
    if suffix.len() == 0 {
        assert(t + suffix =~= t);
    } else {
        lemma_last_underscore_append(t, suffix.drop_last());
        assert((t + suffix).drop_last() =~= t + suffix.drop_last());
    }
}

/// Reading undoes printing: the text of a reference whose base name is
/// the first of its spelling in the table, and does not itself end in an
/// underscore and a number, stands for that reference.
pub proof fn lemma_parse_print(names: Seq<NameModel>, n: NameVariant)
    requires
        n.name_idx < names.len(),
        is_first(names, names[n.name_idx as int].name, n.name_idx as int),
        split_surface(names[n.name_idx as int].name) is None,
    ensures
        resolve(names, surface(names[n.name_idx as int].name, n.variant)) == Some(
            (names[n.name_idx as int].name, n.variant),
        ),
        resolved_ref(names, surface(names[n.name_idx as int].name, n.variant)) == n,
{
    let base = names[n.name_idx as int].name;
    let text = surface(base, n.variant);
    lemma_first_unique(names, base, n.name_idx as int, n.name_idx as int);
    if n.variant != 0 {
        let digits = decimal_chars(n.variant as nat);
        lemma_decimal_chars(n.variant as nat);
        let t = base + seq!['_'];
        assert(t.last() == '_');
        assert(last_underscore(t) == base.len());
        assert forall|i: int| 0 <= i < digits.len() implies digits[i] != '_' by {
            assert(is_digit(digits[i]));
        }
        lemma_last_underscore_append(t, digits);
        assert(text =~= t + digits);
        let i = last_underscore(text);
        assert(text.subrange(i + 1, text.len() as int) =~= digits);
        assert(text.subrange(0, i) =~= base);
        assert(is_digit(digits[0]));
        assert(parse_variant(digits) == Some(n.variant));
    }
}

/* The table */

/// The interned strings of an asset. A name's place in the table is its identity.
#[derive(Debug, Clone, PartialEq, Eq)]
pub struct NameMap {
    pub names: Vec<Name>,
}

impl View for NameMap {
    type V = Seq<NameModel>;

    open spec fn view(&self) -> Seq<NameModel> {
        name_models(self.names@)
    }
}

/// `count` names in a row, each with its place in the table as its index.
pub open spec fn parse_names(d: Seq<u8>, p: int, e: int, count: nat, acc: Seq<NameModel>) -> Result<
    (Seq<NameModel>, int),
    Error,
>
    decreases count,
{
    if count == 0 {
        Ok((acc, p))
    } else {
        match parse_name(d, p, e) {
            Err(err) => Err(err),
            Ok((n, q)) => parse_names(
                d,
                q,
                e,
                (count - 1) as nat,
                acc.push(
                    NameModel {
                        index: acc.len() as u32,
                        name: n.name,
                        non_case_preserving_hash: n.non_case_preserving_hash,
                        case_preserving_hash: n.case_preserving_hash,
                    },
                ),
            ),
        }
    }
}

/// The name table that starts at `p`, which has to be where the summary
/// says it starts.
pub open spec fn parse_name_map(d: Seq<u8>, p: int, e: int, offset: u32, count: u32) -> Result<
    (Seq<NameModel>, int),
    Error,
> {
    if p != offset {
        Err(Error::PositionMismatch { expected: offset as u64, actual: p as u64 })
    } else {
        parse_names(d, p, e, count as nat, Seq::empty())
    }
}

/// The bytes of the first `n` names.
pub open spec fn enc_names(names: Seq<NameModel>, n: int) -> Seq<u8>
    decreases n,
{
    if n <= 0 {
        Seq::empty()
    } else {
        enc_names(names, n - 1) + enc_name(names[n - 1])
    }
}

/// Whether every name of the table can be written.
pub open spec fn names_fit(names: Seq<NameModel>) -> bool {
    forall|i: int| 0 <= i < names.len() ==> name_fits(#[trigger] names[i])
}

/// The bytes that the first `n` names take.
pub open spec fn names_size(names: Seq<NameModel>, n: int) -> nat
    decreases n,
{
    if n <= 0 {
        0
    } else {
        names_size(names, n - 1) + name_size(names[n - 1])
    }
}

impl NameMap {
    pub fn read(rdr: &mut ByteReader, summary: &FileSummary) -> (r: Result<Self, Error>)
        ensures
            reads_as(
                old(rdr)@,
                final(rdr)@,
                r,
                parse_name_map(
                    old(rdr)@.data,
                    old(rdr)@.pos as int,
                    old(rdr)@.bound(),
                    summary.name_offset,
                    summary.name_count,
                ),
            ),
            old(rdr)@.pos != summary.name_offset ==> final(rdr)@ == old(rdr)@,
    {
        if rdr.position() != summary.name_offset as u64 {
            return Err(
                Error::PositionMismatch {
                    expected: summary.name_offset as u64,
                    actual: rdr.position(),
                },
            );
        }
        let ghost d = rdr@.data;
        let ghost e = rdr@.bound();
        let ghost p0 = rdr@.pos as int;
        let mut names: Vec<Name> = Vec::new();
        let mut i: u32 = 0;
        assert(name_models(names@) =~= Seq::empty());
        while i < summary.name_count
            invariant
                0 <= i <= summary.name_count,
                rdr@ == old(rdr)@.at(rdr@.pos as int),
                d == old(rdr)@.data,
                e == old(rdr)@.bound(),
                p0 == old(rdr)@.pos,
                p0 == summary.name_offset,
                names@.len() == i,
                parse_names(d, p0, e, summary.name_count as nat, Seq::empty()) == parse_names(
                    d,
                    rdr@.pos as int,
                    e,
                    (summary.name_count - i) as nat,
                    name_models(names@),
                ),
            decreases summary.name_count - i,
        {
            let ghost before = name_models(names@);
            let ghost p = rdr@.pos as int;
            let mut name = match Name::read(rdr) {
                Ok(name) => name,
                Err(err) => {
                    assert(parse_names(d, p, e, (summary.name_count - i) as nat, before) == Err::<
                        (Seq<NameModel>, int),
                        Error,
                    >(err));
                    return Err(err);
                },
            };
            name.index = i;
            names.push(name);
            assert(name_models(names@) =~= before.push(name@));
            i = i + 1;
        }
        Ok(NameMap { names })
    }

    /// Writes every name in order. Fails at the first name that is too long.
    pub fn write(&self, out: &mut Vec<u8>) -> (r: Result<(), Error>)
        ensures
            names_fit(self@) ==> r is Ok && final(out)@ == old(out)@ + enc_names(
                self@,
                self@.len() as int,
            ),
            !names_fit(self@) ==> r == Err::<(), Error>(Error::TooLong),
    {
        let mut i: usize = 0;
        while i < self.names.len()
            invariant
                0 <= i <= self.names@.len(),
                out@ == old(out)@ + enc_names(self@, i as int),
                forall|j: int| 0 <= j < i ==> name_fits(#[trigger] self@[j]),
            decreases self.names@.len() - i,
        {
            assert(self@[i as int] == self.names@[i as int]@);
            match self.names[i].write(out) {
                Ok(()) => {},
                Err(err) => {
                    return Err(err);
                },
            }
            assert(out@ =~= old(out)@ + enc_names(self@, i + 1));
            i = i + 1;
        }
        Ok(())
    }

    /// The bytes that the table takes in the header file.
    pub fn byte_size(&self) -> (r: usize)
        requires
            names_size(self@, self@.len() as int) <= usize::MAX,
        ensures
            r == names_size(self@, self@.len() as int),
    {
        let mut size: usize = 0;
        let mut i: usize = 0;
        while i < self.names.len()
            invariant
                0 <= i <= self.names@.len(),
                size == names_size(self@, i as int),
                names_size(self@, self@.len() as int) <= usize::MAX,
            decreases self.names@.len() - i,
        {
            proof {
                lemma_names_size_grows(self@, i + 1, self@.len() as int);
            }
            size = size + (8 + self.names[i].name.as_str().as_bytes().len() + 1);
            i = i + 1;
        }
        size
    }

    /// The bytes that the table takes, unless that number is not a `usize`.
    pub fn checked_byte_size(&self) -> (r: Option<usize>)
        ensures
            match r {
                Some(n) => n == names_size(self@, self@.len() as int),
                None => names_size(self@, self@.len() as int) > usize::MAX,
            },
    {
        let mut size: usize = 0;
        let mut i: usize = 0;
        while i < self.names.len()
            invariant
                0 <= i <= self.names@.len(),
                size == names_size(self@, i as int),
            decreases self.names@.len() - i,
        {
            proof {
                lemma_names_size_grows(self@, i + 1, self@.len() as int);
            }
            let len = self.names[i].name.as_str().as_bytes().len();
            if len > usize::MAX - 9 || size > usize::MAX - 9 - len {
                return None;
            }
            size = size + (8 + len + 1);
            i = i + 1;
        }
        Some(size)
    }

    /// The first place at which the table holds `name`.
    pub fn find(&self, name: &str) -> (r: Option<usize>)
        ensures
            match r {
                Some(i) => is_first(self@, name@, i as int),
                None => !has_name(self@, name@),
            },
    {
        let mut i: usize = 0;
        while i < self.names.len()
            invariant
                0 <= i <= self.names@.len(),
                forall|j: int| 0 <= j < i ==> (#[trigger] self@[j]).name != name@,
            decreases self.names@.len() - i,
        {
            if str_eq(self.names[i].name.as_str(), name) {
                return Some(i);
            }
            i = i + 1;
        }
        None
    }

    /// The first entry that holds `name`.
    pub fn get_name_obj(&self, name: &str) -> (r: Option<&Name>)
        ensures
            match r {
                Some(n) => exists|i: int| is_first(self@, name@, i) && *n == self.names@[i],
                None => !has_name(self@, name@),
            },
    {
        match self.find(name) {
            Some(i) => Some(&self.names[i]),
            None => None,
        }
    }

    /// The entry at `index`.
    pub fn lookup(&self, index: u32) -> (r: Result<&Name, Error>)
        ensures
            match r {
                Ok(n) => index < self@.len() && *n == self.names@[index as int],
                Err(e) => index >= self@.len() && e == Error::IndexOutOfRange,
            },
    {
        if index as u64 >= self.names.len() as u64 {
            return Err(Error::IndexOutOfRange);
        }
        Ok(&self.names[index as usize])
    }

    /// Adds a name at the end of the table, unless the table holds it.
    /// Says whether it was added.
    pub fn add(&mut self, name: &str) -> (r: bool)
        ensures
            r == !has_name(old(self)@, name@),
            final(self)@ == with_name(old(self)@, name@),
            has_name(final(self)@, name@),
    {
        if self.find(name).is_some() {
            return false;
        }
        let index =
            #[verifier::truncate]
            (self.names.len() as u32);
        let name_obj = Name {
            index,
            name: String::from_str(name),
            non_case_preserving_hash: 0,
            case_preserving_hash: 0,
        };
        self.names.push(name_obj);
        proof {
            assert(self@ =~= with_name(old(self)@, name@));
            assert(self@[self@.len() - 1].name == name@);
        }
        true
    }

    /// The first place at which the table holds `name`, which it has to hold.
    pub fn expect(&self, name: &str) -> (r: usize)
        requires
            has_name(self@, name@),
        ensures
            is_first(self@, name@, r as int),
    {
        match self.find(name) {
            Some(pos) => pos,
            None => vstd::pervasive::unreached(),
        }
    }

    /// Reads the index of a name and gives the name's string.
    pub fn read_name(&self, rdr: &mut ByteReader) -> (r: Result<String, Error>)
        ensures
            final(rdr)@.data == old(rdr)@.data,
            final(rdr)@.limits == old(rdr)@.limits,
            match r {
                Ok(s) => {
                    &&& 4 <= old(rdr)@.available()
                    &&& u32_at(old(rdr)@.data, old(rdr)@.pos as int) < self@.len()
                    &&& s@ == self@[u32_at(old(rdr)@.data, old(rdr)@.pos as int) as int].name
                    &&& final(rdr)@.pos == old(rdr)@.pos + 4
                },
                Err(e) => if 4 > old(rdr)@.available() {
                    e == Error::PrematureEof
                } else {
                    u32_at(old(rdr)@.data, old(rdr)@.pos as int) >= self@.len() && e
                        == Error::IndexOutOfRange
                },
            },
    {
        let index = read_u32(rdr)?;
        match self.lookup(index) {
            Ok(n) => Ok(n.name.clone()),
            Err(e) => Err(e),
        }
    }
}

proof fn lemma_names_size_grows(names: Seq<NameModel>, i: int, n: int)
    requires
        0 <= i <= n,
    ensures
        names_size(names, i) <= names_size(names, n),
    decreases n - i,
{
    if i < n {
        lemma_names_size_grows(names, i, n - 1);
    }
}

} // verus!
