//! Card identifiers, card data and the byte layout of the card catalog.
use vstd::prelude::*;
use vstd::string::StringSliceAdditionalSpecFns;
use vstd::utf8::{decode_utf8, encode_utf8, valid_utf8};

verus! {

/// Index of a card in the catalog, always below [`CardId::MAX`].
#[derive(Clone, Copy, Debug, PartialEq, Eq, Structural)]
pub struct CardId(u8);

impl View for CardId {
    type V = nat;

    closed spec fn view(&self) -> nat {
        self.0 as nat
    }
}

impl CardId {
    pub const MAX: u8 = 110;

    #[verifier::type_invariant]
    spec fn in_range(self) -> bool {
        self.0 < 110
    }

    /// The card with catalog index `index`, or `None` when it is not below [`CardId::MAX`].
    pub fn new(index: u8) -> (r: Option<CardId>)
        ensures
            r is Some <==> index < 110,
            r matches Some(c) ==> c@ == index,
    {
        if index < Self::MAX {
            Some(CardId(index))
        } else {
            None
        }
    }

    /// The card with catalog index `index`, which the caller knows to be in range.
    pub fn new_unchecked(index: u8) -> (r: CardId)
        requires
            index < 110,
        ensures
            r@ == index,
    {
        CardId(index)
    }

    /// The catalog index of this card.
    pub fn index(&self) -> (r: usize)
        ensures
            r == self@,
            r < 110,
    {
        proof {
            use_type_invariant(self);
        }
        self.0 as usize
    }
}

/// The four edge values of a card, each from 0 to 10.
#[derive(Clone, Copy, Debug, PartialEq, Eq, Structural)]
pub struct Stats {
    pub top: u8,
    pub rgt: u8,
    pub btm: u8,
    pub lft: u8,
}

/// The element printed on a card.
#[derive(Clone, Copy, Debug, PartialEq, Eq, Structural)]
pub enum Element {
    Neutral,
    Earth,
    Fire,
    Holy,
    Ice,
    Poison,
    Thunder,
    Water,
    Wind,
}

/// The catalog byte holding `hi` in its upper four bits and `lo` in its lower four.
pub open spec fn packed(hi: u8, lo: u8) -> u8 {
    ((hi << 4u8) | lo) as u8
}

/// The stats stored in the two packed catalog bytes `[top << 4 | right, bottom << 4 | left]`.
pub open spec fn unpacked(top_rgt: u8, btm_lft: u8) -> Stats {
    Stats { top: top_rgt >> 4u8, rgt: top_rgt & 15u8, btm: btm_lft >> 4u8, lft: btm_lft & 15u8 }
}

impl Stats {
    /// The stats stored in the two packed catalog bytes.
    pub fn from_bytes(top_rgt: u8, btm_lft: u8) -> (r: Stats)
        ensures
            r == unpacked(top_rgt, btm_lft),
    {
        Stats { top: top_rgt >> 4, rgt: top_rgt & 0xF, btm: btm_lft >> 4, lft: btm_lft & 0xF }
    }
}

/// The character that shows a stat on a card: a digit, or `A` for 10.
pub open spec fn spec_stat_char(value: u8) -> char {
    if value < 10 {
        (value + 48) as char
    } else {
        'A'
    }
}

/// The character that shows a stat on a card: a digit, or `A` for 10.
pub fn stat_char(value: u8) -> (r: char)
    requires
        value <= 10,
    ensures
        r == spec_stat_char(value),
{
    if value < 10 {
        (value + 48) as char
    } else {
        'A'
    }
}

/// The element with catalog byte `b`; bytes above 8 read as no element.
pub open spec fn element_of_byte(b: u8) -> Element {
    match b {
        1 => Element::Earth,
        2 => Element::Fire,
        3 => Element::Holy,
        4 => Element::Ice,
        5 => Element::Poison,
        6 => Element::Thunder,
        7 => Element::Water,
        8 => Element::Wind,
        _ => Element::Neutral,
    }
}

/// The catalog byte of an element.
pub open spec fn element_byte(e: Element) -> u8 {
    match e {
        Element::Neutral => 0,
        Element::Earth => 1,
        Element::Fire => 2,
        Element::Holy => 3,
        Element::Ice => 4,
        Element::Poison => 5,
        Element::Thunder => 6,
        Element::Water => 7,
        Element::Wind => 8,
    }
}

/// The element spelled `name`, as in a card list line.
pub open spec fn element_named(name: Seq<u8>) -> Option<Element> {
    if name == "None".spec_bytes() {
        Some(Element::Neutral)
    } else if name == "Earth".spec_bytes() {
        Some(Element::Earth)
    } else if name == "Fire".spec_bytes() {
        Some(Element::Fire)
    } else if name == "Holy".spec_bytes() {
        Some(Element::Holy)
    } else if name == "Ice".spec_bytes() {
        Some(Element::Ice)
    } else if name == "Poison".spec_bytes() {
        Some(Element::Poison)
    } else if name == "Thunder".spec_bytes() {
        Some(Element::Thunder)
    } else if name == "Water".spec_bytes() {
        Some(Element::Water)
    } else if name == "Wind".spec_bytes() {
        Some(Element::Wind)
    } else {
        None
    }
}

impl Element {
    /// The element with catalog byte `value`; bytes above 8 read as no element.
    pub fn from_byte(value: u8) -> (r: Element)
        ensures
            r == element_of_byte(value),
    {
        match value {
            1 => Element::Earth,
            2 => Element::Fire,
            3 => Element::Holy,
            4 => Element::Ice,
            5 => Element::Poison,
            6 => Element::Thunder,
            7 => Element::Water,
            8 => Element::Wind,
            _ => Element::Neutral,
        }
    }

    /// The catalog byte of this element.
    pub fn to_byte(self) -> (r: u8)
        ensures
            r == element_byte(self),
    {
        match self {
            Element::Neutral => 0,
            Element::Earth => 1,
            Element::Fire => 2,
            Element::Holy => 3,
            Element::Ice => 4,
            Element::Poison => 5,
            Element::Thunder => 6,
            Element::Water => 7,
            Element::Wind => 8,
        }
    }

    /// The element spelled `s`: `None`, `Earth`, `Fire`, `Holy`, `Ice`, `Poison`, `Thunder`,
    /// `Water` or `Wind`.
    pub fn from_str(s: &str) -> (r: Result<Element, DataError>)
        ensures
            r is Ok <==> element_named(s.spec_bytes()) is Some,
            r matches Ok(e) ==> element_named(s.spec_bytes()) == Some(e),
            r matches Err(err) ==> err == DataError::InvalidElement,
    {
        let b = s.as_bytes();
        assert(b@.subrange(0, b@.len() as int) =~= b@);
        match parse_element(b, 0, b.len()) {
            Some(e) => Ok(e),
            None => Err(DataError::InvalidElement),
        }
    }
}

impl From<u8> for Element {
    /// The element with catalog byte `value`; bytes above 8 read as no element.
    fn from(value: u8) -> (r: Element) {
        Element::from_byte(value)
    }
}

impl vstd::std_specs::convert::FromSpecImpl<u8> for Element {
    open spec fn obeys_from_spec() -> bool {
        true
    }

    open spec fn from_spec(v: u8) -> Element {
        element_of_byte(v)
    }
}

impl From<[u8; 2]> for Stats {
    /// The stats stored in the two packed catalog bytes.
    fn from(value: [u8; 2]) -> (r: Stats) {
        Stats::from_bytes(value[0], value[1])
    }
}

impl vstd::std_specs::convert::FromSpecImpl<[u8; 2]> for Stats {
    open spec fn obeys_from_spec() -> bool {
        true
    }

    open spec fn from_spec(v: [u8; 2]) -> Stats {
        unpacked(v@[0], v@[1])
    }
}

/// Whether `b[start..end]` equals `lit`.
fn bytes_equal(b: &[u8], start: usize, end: usize, lit: &[u8]) -> (r: bool)
    requires
        start <= end <= b@.len(),
    ensures
        r == (b@.subrange(start as int, end as int) == lit@),
{
    if end - start != lit.len() {
        return false;
    }
    let mut i: usize = 0;
    while i < lit.len()
        invariant
            end - start == lit@.len(),
            start <= end <= b@.len(),
            i <= lit@.len(),
            forall|k: int| 0 <= k < i ==> b@[start + k] == lit@[k],
        decreases lit@.len() - i,
    {
        if b[start + i] != lit[i] {
            assert(b@.subrange(start as int, end as int)[i as int] != lit@[i as int]);
            return false;
        }
        i = i + 1;
    }
    assert(b@.subrange(start as int, end as int) =~= lit@);
    true
}

fn parse_element(b: &[u8], start: usize, end: usize) -> (r: Option<Element>)
    requires
        start <= end <= b@.len(),
    ensures
        r == element_named(b@.subrange(start as int, end as int)),
{
    if bytes_equal(b, start, end, "None".as_bytes()) {
        Some(Element::Neutral)
    } else if bytes_equal(b, start, end, "Earth".as_bytes()) {
        Some(Element::Earth)
    } else if bytes_equal(b, start, end, "Fire".as_bytes()) {
        Some(Element::Fire)
    } else if bytes_equal(b, start, end, "Holy".as_bytes()) {
        Some(Element::Holy)
    } else if bytes_equal(b, start, end, "Ice".as_bytes()) {
        Some(Element::Ice)
    } else if bytes_equal(b, start, end, "Poison".as_bytes()) {
        Some(Element::Poison)
    } else if bytes_equal(b, start, end, "Thunder".as_bytes()) {
        Some(Element::Thunder)
    } else if bytes_equal(b, start, end, "Water".as_bytes()) {
        Some(Element::Water)
    } else if bytes_equal(b, start, end, "Wind".as_bytes()) {
        Some(Element::Wind)
    } else {
        None
    }
}

/// Why a card list line could not be read: the first field that is missing or malformed.
#[derive(Clone, Copy, Debug, PartialEq, Eq, Structural)]
pub enum DataError {
    InvalidBottomStat,
    InvalidElement,
    InvalidLeftStat,
    InvalidLevel,
    InvalidName,
    InvalidRightStat,
    InvalidTopStat,
}

// ======================================== Card list ==============================================

/// The value of a run of decimal digits.
pub open spec fn digits_value(d: Seq<u8>) -> nat
    decreases d.len(),
{
    if d.len() == 0 {
        0
    } else {
        digits_value(d.drop_last()) * 10 + (d.last() - 48) as nat
    }
}

/// Every byte of `d` is an ASCII digit.
pub open spec fn all_digits(d: Seq<u8>) -> bool {
    forall|i: int| 0 <= i < d.len() ==> 48 <= #[trigger] d[i] <= 57
}

/// The number written in `f`: decimal digits after an optional `+`, at most 255.
pub open spec fn parse_u8_spec(f: Seq<u8>) -> Option<u8> {
    let d = if f.len() > 0 && f[0] == 43 {
        f.drop_first()
    } else {
        f
    };
    if d.len() > 0 && all_digits(d) && digits_value(d) <= 255 {
        Some(digits_value(d) as u8)
    } else {
        None
    }
}

/// The comma-separated fields of `b` from the field that starts at `start`, scanning from `i`.
pub open spec fn split_from(b: Seq<u8>, start: nat, i: nat) -> Seq<Seq<u8>>
    decreases b.len() - i,
{
    if i >= b.len() {
        seq![b.subrange(start as int, b.len() as int)]
    } else if b[i as int] == 44 {
        seq![b.subrange(start as int, i as int)].add(split_from(b, i + 1, i + 1))
    } else {
        split_from(b, start, i + 1)
    }
}

/// The comma-separated fields of a line; a line without commas is one field.
pub open spec fn fields(b: Seq<u8>) -> Seq<Seq<u8>> {
    split_from(b, 0, 0)
}

/// Field `k` of a line, if it has that many.
pub open spec fn field(b: Seq<u8>, k: int) -> Option<Seq<u8>> {
    if 0 <= k < fields(b).len() {
        Some(fields(b)[k])
    } else {
        None
    }
}

/// The number in field `k` of a line, if the field is there and holds one.
pub open spec fn number_field(b: Seq<u8>, k: int) -> Option<u8> {
    match field(b, k) {
        Some(f) => parse_u8_spec(f),
        None => None,
    }
}

/// A card as a list line describes it, `level,name,top,right,bottom,left,element`, or the
/// error of its first bad field. Fields after the seventh are ignored.
pub open spec fn parse_card(b: Seq<u8>) -> Result<(u8, Seq<char>, Stats, Element), DataError> {
    if number_field(b, 0) is None {
        Err(DataError::InvalidLevel)
    } else if field(b, 1) is None || !valid_utf8(field(b, 1)->0) {
        Err(DataError::InvalidName)
    } else if number_field(b, 2) is None {
        Err(DataError::InvalidTopStat)
    } else if number_field(b, 3) is None {
        Err(DataError::InvalidRightStat)
    } else if number_field(b, 4) is None {
        Err(DataError::InvalidBottomStat)
    } else if number_field(b, 5) is None {
        Err(DataError::InvalidLeftStat)
    } else if field(b, 6) is None || element_named(field(b, 6)->0) is None {
        Err(DataError::InvalidElement)
    } else {
        Ok(
            (
                number_field(b, 0)->0,
                decode_utf8(field(b, 1)->0),
                Stats {
                    top: number_field(b, 2)->0,
                    rgt: number_field(b, 3)->0,
                    btm: number_field(b, 4)->0,
                    lft: number_field(b, 5)->0,
                },
                element_named(field(b, 6)->0)->0,
            ),
        )
    }
}

proof fn lemma_digits_prefix(d: Seq<u8>, i: int)
    requires
        0 <= i <= d.len(),
        all_digits(d),
    ensures
        digits_value(d.subrange(0, i)) <= digits_value(d),
    decreases d.len() - i,
{
    if i < d.len() {
        lemma_digits_prefix(d, i + 1);
        let p = d.subrange(0, i + 1);
        assert(p.drop_last() =~= d.subrange(0, i));
        assert(48 <= p.last());
    } else {
        assert(d.subrange(0, i) =~= d);
    }
}

/// The number written in `b[start..end]`, as [`parse_u8_spec`] reads it.
fn parse_u8(b: &[u8], start: usize, end: usize) -> (r: Option<u8>)
    requires
        start <= end <= b@.len(),
    ensures
        r == parse_u8_spec(b@.subrange(start as int, end as int)),
{
    let ghost f = b@.subrange(start as int, end as int);
    let first = if start < end && b[start] == 43 {
        start + 1
    } else {
        start
    };
    let ghost d = b@.subrange(first as int, end as int);
    assert(d =~= (if f.len() > 0 && f[0] == 43 {
        f.drop_first()
    } else {
        f
    }));
    if first == end {
        return None;
    }
    let mut value: u32 = 0;
    let mut i: usize = first;
    while i < end
        invariant
            first <= i <= end <= b@.len(),
            d == b@.subrange(first as int, end as int),
            f == b@.subrange(start as int, end as int),
            d == (if f.len() > 0 && f[0] == 43 {
                f.drop_first()
            } else {
                f
            }),
            d.len() > 0,
            all_digits(b@.subrange(first as int, i as int)),
            value == digits_value(b@.subrange(first as int, i as int)),
            value <= 255,
        decreases end - i,
    {
        let c = b[i];
        let ghost before = b@.subrange(first as int, i as int);
        let ghost after = b@.subrange(first as int, i + 1);
        assert(after.drop_last() =~= before);
        if c < 48 || c > 57 {
            assert(!all_digits(d)) by {
                assert(d[i - first] == c);
            }
            return None;
        }
        value = value * 10 + (c - 48) as u32;
        assert(all_digits(after)) by {
            assert forall|k: int| 0 <= k < after.len() implies 48 <= #[trigger] after[k] <= 57 by {
                if k < before.len() {
                    assert(after[k] == before[k]);
                }
            }
        }
        if value > 255 {
            assert(parse_u8_spec(f) is None) by {
                if all_digits(d) {
                    lemma_digits_prefix(d, i + 1 - first);
                    assert(d.subrange(0, i + 1 - first) =~= after);
                }
            }
            return None;
        }
        i = i + 1;
    }
    assert(b@.subrange(first as int, i as int) =~= d);
    Some(value as u8)
}

/// The byte ranges of the comma-separated fields of `b`, in order.
fn field_bounds(b: &[u8]) -> (r: Vec<(usize, usize)>)
    ensures
        r@.len() == fields(b@).len(),
        forall|k: int|
            0 <= k < r@.len() ==> (#[trigger] r@[k]).0 <= r@[k].1 <= b@.len() && b@.subrange(
                r@[k].0 as int,
                r@[k].1 as int,
            ) == fields(b@)[k],
{
    let mut r: Vec<(usize, usize)> = Vec::new();
    let mut start: usize = 0;
    let mut i: usize = 0;
    while i < b.len()
        invariant
            start <= i <= b@.len(),
            forall|k: int|
                0 <= k < r@.len() ==> (#[trigger] r@[k]).0 <= r@[k].1 <= b@.len(),
            fields(b@) == Seq::new(
                r@.len(),
                |k: int| b@.subrange(r@[k].0 as int, r@[k].1 as int),
            ).add(split_from(b@, start as nat, i as nat)),
        decreases b@.len() - i,
    {
        if b[i] == 44 {
            let ghost done = Seq::new(
                r@.len(),
                |k: int| b@.subrange(r@[k].0 as int, r@[k].1 as int),
            );
            r.push((start, i));
            let ghost done2 = Seq::new(
                r@.len(),
                |k: int| b@.subrange(r@[k].0 as int, r@[k].1 as int),
            );
            assert(done2 =~= done.push(b@.subrange(start as int, i as int)));
            assert(done2.add(split_from(b@, (i + 1) as nat, (i + 1) as nat)) =~= done.add(
                split_from(b@, start as nat, i as nat),
            ));
            start = i + 1;
        }
        i = i + 1;
    }
    let ghost done = Seq::new(r@.len(), |k: int| b@.subrange(r@[k].0 as int, r@[k].1 as int));
    r.push((start, i));
    let ghost done2 = Seq::new(r@.len(), |k: int| b@.subrange(r@[k].0 as int, r@[k].1 as int));
    assert(done2 =~= done.push(b@.subrange(start as int, i as int)));
    assert(fields(b@) =~= done2);
    r
}

/// Relies on `String::from_utf8`: it succeeds exactly on valid UTF-8, and the string then holds
/// the decoded characters.
#[verifier::external_body]
fn string_from_utf8(bytes: Vec<u8>) -> (r: Option<String>)
    ensures
        r is Some <==> valid_utf8(bytes@),
        r matches Some(s) ==> s@ == decode_utf8(bytes@),
{
    String::from_utf8(bytes).ok()
}

/// A copy of `b[start..end]`.
fn copy_range(b: &[u8], start: usize, end: usize) -> (r: Vec<u8>)
    requires
        start <= end <= b@.len(),
    ensures
        r@ == b@.subrange(start as int, end as int),
{
    let mut r: Vec<u8> = Vec::new();
    let mut i: usize = start;
    while i < end
        invariant
            start <= i <= end <= b@.len(),
            r@ == b@.subrange(start as int, i as int),
        decreases end - i,
    {
        r.push(b[i]);
        assert(r@ =~= b@.subrange(start as int, i + 1));
        i = i + 1;
    }
    r
}

/// One entry of the card list: level, name, stats and element.
#[derive(Debug)]
pub struct Card {
    level: u8,
    name: String,
    stats: Stats,
    element: Element,
}

impl View for Card {
    type V = (u8, Seq<char>, Stats, Element);

    closed spec fn view(&self) -> (u8, Seq<char>, Stats, Element) {
        (self.level, self.name@, self.stats, self.element)
    }
}

/// The catalog record of a card: the two packed stat bytes, the element byte, the length of the
/// name in bytes (modulo 256) and the UTF-8 bytes of the name.
pub open spec fn record_bytes(c: (u8, Seq<char>, Stats, Element)) -> Seq<u8> {
    seq![
        packed(c.2.top, c.2.rgt),
        packed(c.2.btm, c.2.lft),
        element_byte(c.3),
        (encode_utf8(c.1).len() % 256) as u8,
    ].add(encode_utf8(c.1))
}

impl Card {
    pub fn level(&self) -> (r: u8)
        ensures
            r == self@.0,
    {
        self.level
    }

    pub fn name(&self) -> (r: &str)
        ensures
            r@ == self@.1,
    {
        self.name.as_str()
    }

    pub fn stats(&self) -> (r: Stats)
        ensures
            r == self@.2,
    {
        self.stats
    }

    pub fn element(&self) -> (r: Element)
        ensures
            r == self@.3,
    {
        self.element
    }

    /// Reads a card list line, `level,name,top,right,bottom,left,element`.
    pub fn from_str(s: &str) -> (r: Result<Card, DataError>)
        ensures
            r matches Ok(c) ==> parse_card(s.spec_bytes()) == Ok::<_, DataError>(c@),
            r matches Err(e) ==> parse_card(s.spec_bytes()) == Err::<
                (u8, Seq<char>, Stats, Element),
                DataError,
            >(e),
    {
        let b = s.as_bytes();
        let fs = field_bounds(b);
        let level = if fs.len() > 0 {
            parse_u8(b, fs[0].0, fs[0].1)
        } else {
            None
        };
        let level = match level {
            Some(v) => v,
            None => return Err(DataError::InvalidLevel),
        };
        if fs.len() < 2 {
            return Err(DataError::InvalidName);
        }
        let name = match string_from_utf8(copy_range(b, fs[1].0, fs[1].1)) {
            Some(n) => n,
            None => return Err(DataError::InvalidName),
        };
        let top = if fs.len() > 2 {
            parse_u8(b, fs[2].0, fs[2].1)
        } else {
            None
        };
        let top = match top {
            Some(v) => v,
            None => return Err(DataError::InvalidTopStat),
        };
        let rgt = if fs.len() > 3 {
            parse_u8(b, fs[3].0, fs[3].1)
        } else {
            None
        };
        let rgt = match rgt {
            Some(v) => v,
            None => return Err(DataError::InvalidRightStat),
        };
        let btm = if fs.len() > 4 {
            parse_u8(b, fs[4].0, fs[4].1)
        } else {
            None
        };
        let btm = match btm {
            Some(v) => v,
            None => return Err(DataError::InvalidBottomStat),
        };
        let lft = if fs.len() > 5 {
            parse_u8(b, fs[5].0, fs[5].1)
        } else {
            None
        };
        let lft = match lft {
            Some(v) => v,
            None => return Err(DataError::InvalidLeftStat),
        };
        let element = if fs.len() > 6 {
            parse_element(b, fs[6].0, fs[6].1)
        } else {
            None
        };
        let element = match element {
            Some(e) => e,
            None => return Err(DataError::InvalidElement),
        };
        Ok(Card { level, name, stats: Stats { top, rgt, btm, lft }, element })
    }

    /// Appends the catalog record of this card to `out`.
    pub fn write_bytes(&self, out: &mut Vec<u8>)
        ensures
            final(out)@ == old(out)@ + record_bytes(self@),
    {
        let name = self.name.as_str().as_bytes();
        let len = (name.len() % 256) as u8;
        out.push((self.stats.top << 4) | self.stats.rgt);
        out.push((self.stats.btm << 4) | self.stats.lft);
        out.push(self.element.to_byte());
        out.push(len);
        let ghost head = out@;
        let mut i: usize = 0;
        while i < name.len()
            invariant
                i <= name@.len(),
                out@ == head + name@.subrange(0, i as int),
            decreases name@.len() - i,
        {
            out.push(name[i]);
            assert(out@ =~= head + name@.subrange(0, i + 1));
            i = i + 1;
        }
        assert(name@.subrange(0, i as int) =~= name@);
        assert(out@ =~= old(out)@ + record_bytes(self@));
    }
}

// ========================================= Catalog ===============================================

/// The card catalog: element, name and stats of each card, at the card's index.
pub struct CardDb {
    pub elements: Vec<Element>,
    pub names: Vec<String>,
    pub stats: Vec<Stats>,
}

/// Why catalog bytes could not be read.
#[derive(Clone, Copy, Debug, PartialEq, Eq, Structural)]
pub enum LoadError {
    /// A record announces a longer name than the bytes that follow.
    TruncatedName,
    /// A name is not valid UTF-8.
    InvalidName,
}

/// The records of a catalog from byte `i` on, as (element, name, stats). Fewer than four bytes
/// left end the catalog.
pub open spec fn parse_records(b: Seq<u8>, i: nat) -> Result<
    Seq<(Element, Seq<char>, Stats)>,
    LoadError,
>
    decreases b.len() - i,
{
    if i + 4 > b.len() {
        Ok(seq![])
    } else {
        let end = i + 4 + b[i + 3int] as nat;
        if end > b.len() {
            Err(LoadError::TruncatedName)
        } else if !valid_utf8(b.subrange(i + 4int, end as int)) {
            Err(LoadError::InvalidName)
        } else {
            match parse_records(b, end) {
                Ok(rest) => Ok(
                    seq![
                        (
                            element_of_byte(b[i + 2int]),
                            decode_utf8(b.subrange(i + 4int, end as int)),
                            unpacked(b[i as int], b[i + 1int]),
                        ),
                    ].add(rest),
                ),
                Err(e) => Err(e),
            }
        }
    }
}

/// `recs` followed by the records of `r`, or the error of `r`.
pub open spec fn after_records(
    recs: Seq<(Element, Seq<char>, Stats)>,
    r: Result<Seq<(Element, Seq<char>, Stats)>, LoadError>,
) -> Result<Seq<(Element, Seq<char>, Stats)>, LoadError> {
    match r {
        Ok(rest) => Ok(recs.add(rest)),
        Err(e) => Err(e),
    }
}

impl CardDb {
    /// The records of the catalog, in order.
    pub open spec fn records(&self) -> Seq<(Element, Seq<char>, Stats)> {
        Seq::new(
            self.stats@.len(),
            |k: int| (self.elements@[k], self.names@[k]@, self.stats@[k]),
        )
    }

    /// The three columns have one entry per card.
    pub open spec fn well_formed(&self) -> bool {
        self.elements@.len() == self.stats@.len() && self.names@.len() == self.stats@.len()
    }

    /// Reads a catalog: records `[top << 4 | right, bottom << 4 | left, element, name length,
    /// name...]` back to back, up to the end of the bytes.
    pub fn from_bytes(bytes: &[u8]) -> (r: Result<CardDb, LoadError>)
        ensures
            r matches Ok(db) ==> db.well_formed() && parse_records(bytes@, 0) == Ok::<
                _,
                LoadError,
            >(db.records()),
            r matches Err(e) ==> parse_records(bytes@, 0) == Err::<
                Seq<(Element, Seq<char>, Stats)>,
                LoadError,
            >(e),
    {
        let mut db = CardDb { elements: Vec::new(), names: Vec::new(), stats: Vec::new() };
        let mut i: usize = 0;
        while i <= bytes.len() && bytes.len() - i >= 4
            invariant
                i <= bytes@.len(),
                db.well_formed(),
                parse_records(bytes@, 0) == after_records(
                    db.records(),
                    parse_records(bytes@, i as nat),
                ),
            decreases bytes@.len() - i,
        {
            let len = bytes[i + 3] as usize;
            if bytes.len() - i - 4 < len {
                return Err(LoadError::TruncatedName);
            }
            let end = i + 4 + len;
            let name = match string_from_utf8(copy_range(bytes, i + 4, end)) {
                Some(n) => n,
                None => return Err(LoadError::InvalidName),
            };
            let ghost recs = db.records();
            let ghost rec = (
                element_of_byte(bytes@[i + 2]),
                decode_utf8(bytes@.subrange(i + 4, end as int)),
                unpacked(bytes@[i as int], bytes@[i + 1]),
            );
            db.elements.push(Element::from_byte(bytes[i + 2]));
            db.names.push(name);
            db.stats.push(Stats::from_bytes(bytes[i], bytes[i + 1]));
            assert(db.records() =~= recs.push(rec));
            assert(after_records(db.records(), parse_records(bytes@, end as nat)) == after_records(
                recs,
                parse_records(bytes@, i as nat),
            )) by {
                match parse_records(bytes@, end as nat) {
                    Ok(rest) => {
                        assert(recs.push(rec).add(rest) =~= recs.add(seq![rec].add(rest)));
                    },
                    Err(e) => {},
                }
            }
            i = end;
        }
        assert(db.records().add(seq![]) =~= db.records());
        Ok(db)
    }
}

} // verus!
