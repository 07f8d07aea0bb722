//! Identifiers of worlds, users, instances and rooms, and how they are
//! written.

use crate::number::{decimal_text, parse_u32, push_decimal, unsigned_number};
use crate::reading_back::{all_writable, lemma_room_is_read_back};
use crate::text::{chars_of, matches_at, occurs_at, part, position_of, string_of, until};
use vstd::arithmetic::power::pow;
use vstd::prelude::*;

verus! {

/// The 128-bit value of the UUID that `text` writes, in any of the forms that
/// the `uuid` crate reads; `None` where `text` writes no UUID.
pub uninterp spec fn uuid_of_text(text: Seq<char>) -> Option<u128>;

/// Reads a UUID with `uuid::Uuid::parse_str` and gives its value as
/// `uuid::Uuid::as_u128` does. Which texts are read, and as what, is left to
/// that crate, but for the hyphenated form in lower case, which it reads as
/// the value that is so written.
#[verifier::external_body]
fn parse_uuid(text: &str) -> (value: Option<u128>)
    ensures
        value == uuid_of_text(text@),
        forall|written: u128| text@ == #[trigger] hyphenated_text(written) ==> value == Some(written),
{
    match uuid::Uuid::parse_str(text) {
        Ok(uuid) => Some(uuid.as_u128()),
        Err(_) => None,
    }
}

/// The lower-case hexadecimal digit of value `n`.
pub open spec fn hex_digit(n: int) -> char {
    if n < 10 {
        ('0' as u8 + n) as u8 as char
    } else {
        ('a' as u8 + n - 10) as u8 as char
    }
}

/// The hexadecimal digit of `value` at position `k`, counted from the most
/// significant of its 32 digits.
pub open spec fn hex_digit_at(value: u128, k: int) -> int {
    (value as int / pow(16, (31 - k) as nat)) % 16
}

/// The number of hyphens that stand before position `i` of a hyphenated UUID.
pub open spec fn hyphens_before(i: int) -> int {
    if i < 8 {
        0
    } else if i < 13 {
        1
    } else if i < 18 {
        2
    } else if i < 23 {
        3
    } else {
        4
    }
}

/// The hyphenated form of the UUID of value `value`: its 32 lower-case
/// hexadecimal digits in groups of 8, 4, 4, 4 and 12, with a hyphen between
/// the groups.
pub open spec fn hyphenated_text(value: u128) -> Seq<char> {
    Seq::new(
        36,
        |i: int|
            if i == 8 || i == 13 || i == 18 || i == 23 {
                '-'
            } else {
                hex_digit(hex_digit_at(value, i - hyphens_before(i)))
            },
    )
}

/// Writes the UUID of value `value` as `uuid::Uuid::as_hyphenated` displays
/// it: 36 characters, lower-case digits in groups of 8, 4, 4, 4 and 12.
#[verifier::external_body]
fn hyphenated(value: u128) -> (text: String)
    ensures
        text@ == hyphenated_text(value),
{
    uuid::Uuid::from_u128(value).as_hyphenated().to_string()
}

/// Why a text is not the identifier it was read as.
#[derive(Clone, Copy, Debug, PartialEq, Eq, Structural)]
pub enum IdError {
    /// The text does not begin with the tag of its kind of identifier.
    MissingTag,
    /// What follows the tag is no UUID.
    InvalidUuid,
    /// A room has no `:` between world and instance.
    MissingColon,
    /// The number of an instance is no number, or too large.
    InvalidInstanceNumber,
    /// An attribute has no `(` after its key.
    MissingValue,
    /// The value of an attribute does not end in `)`.
    UnclosedValue,
}

/// The tag that a world's identifier begins with.
pub open spec fn world_tag() -> Seq<char> {
    "wrld_"@
}

/// The tag that a user's identifier begins with.
pub open spec fn user_tag() -> Seq<char> {
    "usr_"@
}

/// The value of the UUID that follows `tag` in `text`.
pub open spec fn tagged_uuid(tag: Seq<char>, text: Seq<char>) -> Result<u128, IdError> {
    if occurs_at(text, 0, tag) {
        uuid_or_error(uuid_of_text(text.skip(tag.len() as int)))
    } else {
        Err(IdError::MissingTag)
    }
}

/// What reading a UUID came to, as a result.
pub open spec fn uuid_or_error(read: Option<u128>) -> Result<u128, IdError> {
    match read {
        Some(value) => Ok(value),
        None => Err(IdError::InvalidUuid),
    }
}

/// Turns what reading a UUID came to into a result.
pub fn uuid_result(read: Option<u128>) -> (result: Result<u128, IdError>)
    ensures
        result == uuid_or_error(read),
{
    match read {
        Some(value) => Ok(value),
        None => Err(IdError::InvalidUuid),
    }
}

/// Reads the UUID that follows `tag` in `text`. The tag and a UUID in
/// hyphenated form, in lower case, are read as the value that is so written.
pub fn parse_tagged_uuid(tag: &str, text: &[char]) -> (value: Result<u128, IdError>)
    ensures
        value == tagged_uuid(tag@, text@),
        forall|written: u128|
            text@ == tag@ + #[trigger] hyphenated_text(written) ==> value == Ok::<u128, IdError>(
                written,
            ),
{
    let tag_chars = chars_of(tag);
    assert forall|written: u128| text@ == tag@ + #[trigger] hyphenated_text(written) implies {
        &&& occurs_at(text@, 0, tag@)
        &&& text@.skip(tag@.len() as int) == hyphenated_text(written)
    } by {
        assert(text@.subrange(0, tag@.len() as int) =~= tag@);
        assert(text@.skip(tag@.len() as int) =~= hyphenated_text(written));
    }
    if !matches_at(text, 0, tag_chars.as_slice()) {
        return Err(IdError::MissingTag);
    }
    let rest = string_of(part(text, tag_chars.len(), text.len()));
    assert(text@.subrange(tag_chars@.len() as int, text@.len() as int) =~= text@.skip(
        tag@.len() as int,
    ));
    uuid_result(parse_uuid(rest.as_str()))
}

/// The identifier of a world: a UUID, written after the tag `wrld_`.
#[derive(Clone, Copy, Debug, PartialEq, Eq, Structural)]
pub struct WorldId {
    pub uuid: u128,
}

impl WorldId {
    /// The world that `text` names.
    pub open spec fn of_text(text: Seq<char>) -> Result<WorldId, IdError> {
        match tagged_uuid(world_tag(), text) {
            Ok(uuid) => Ok(WorldId { uuid }),
            Err(error) => Err(error),
        }
    }

    /// How this identifier is written.
    pub open spec fn text(self) -> Seq<char> {
        world_tag() + hyphenated_text(self.uuid)
    }

    /// Reads a world's identifier from the characters `text`. What
    /// `to_text` writes is read back as the identifier that was written.
    pub fn parse_chars(text: &[char]) -> (id: Result<WorldId, IdError>)
        ensures
            id == WorldId::of_text(text@),
            forall|written: WorldId|
                text@ == #[trigger] written.text() ==> id == Ok::<WorldId, IdError>(written),
    {
        match parse_tagged_uuid("wrld_", text) {
            Ok(uuid) => Ok(WorldId { uuid }),
            Err(error) => Err(error),
        }
    }

    /// Reads a world's identifier. What `to_text` writes is read back as
    /// the identifier that was written.
    pub fn parse(text: &str) -> (id: Result<WorldId, IdError>)
        ensures
            id == WorldId::of_text(text@),
            forall|written: WorldId|
                text@ == #[trigger] written.text() ==> id == Ok::<WorldId, IdError>(written),
    {
        let chars = chars_of(text);
        WorldId::parse_chars(chars.as_slice())
    }

    /// Writes this identifier: the tag, then the UUID in hyphenated form.
    pub fn to_text(&self) -> (text: String)
        ensures
            text@ == self.text(),
    {
        let mut text = String::from_str("wrld_");
        text.append(hyphenated(self.uuid).as_str());
        text
    }
}

/// The identifier of a user: a UUID, written after the tag `usr_`.
#[derive(Clone, Copy, Debug, PartialEq, Eq, Structural)]
pub struct UserId {
    pub uuid: u128,
}

impl UserId {
    /// The user that `text` names.
    pub open spec fn of_text(text: Seq<char>) -> Result<UserId, IdError> {
        match tagged_uuid(user_tag(), text) {
            Ok(uuid) => Ok(UserId { uuid }),
            Err(error) => Err(error),
        }
    }

    /// How this identifier is written.
    pub open spec fn text(self) -> Seq<char> {
        user_tag() + hyphenated_text(self.uuid)
    }

    /// Reads a user's identifier. What `to_text` writes is read back as
    /// the identifier that was written.
    pub fn parse(text: &str) -> (id: Result<UserId, IdError>)
        ensures
            id == UserId::of_text(text@),
            forall|written: UserId|
                text@ == #[trigger] written.text() ==> id == Ok::<UserId, IdError>(written),
    {
        let chars = chars_of(text);
        match parse_tagged_uuid("usr_", chars.as_slice()) {
            Ok(uuid) => Ok(UserId { uuid }),
            Err(error) => Err(error),
        }
    }

    /// Writes this identifier: the tag, then the UUID in hyphenated form.
    pub fn to_text(&self) -> (text: String)
        ensures
            text@ == self.text(),
    {
        let mut text = String::from_str("usr_");
        text.append(hyphenated(self.uuid).as_str());
        text
    }
}

/// One attribute of an instance: a key and, in parentheses, a value.
#[derive(Clone, Debug, PartialEq, Eq)]
pub struct Attribute {
    pub key: String,
    pub value: String,
}

/// An attribute as a pair of texts.
pub struct AttributeView {
    pub key: Seq<char>,
    pub value: Seq<char>,
}

impl View for Attribute {
    type V = AttributeView;

    open spec fn view(&self) -> AttributeView {
        AttributeView { key: self.key@, value: self.value@ }
    }
}

/// The identifier of an instance of a world: a number, and attributes in the
/// order in which they were written. The order tells how the identifier is
/// written, not which instance it names: see `same_as`.
#[derive(Clone, Debug)]
pub struct InstanceId {
    pub id: u32,
    pub attributes: Vec<Attribute>,
}

/// An instance's identifier as a number and a sequence of pairs of texts.
pub struct InstanceIdView {
    pub id: u32,
    pub attributes: Seq<AttributeView>,
}

impl View for InstanceId {
    type V = InstanceIdView;

    open spec fn view(&self) -> InstanceIdView {
        InstanceIdView { id: self.id, attributes: self.attributes.deep_view() }
    }
}

impl DeepView for Attribute {
    type V = AttributeView;

    open spec fn deep_view(&self) -> AttributeView {
        self@
    }
}

/// How often `x` is among `attributes`.
pub open spec fn occurrences(attributes: Seq<AttributeView>, x: AttributeView) -> nat
    decreases attributes.len(),
{
    if attributes.len() == 0 {
        0
    } else {
        occurrences(attributes.drop_last(), x) + if attributes.last() == x {
            1nat
        } else {
            0nat
        }
    }
}

/// The two sequences hold the same attributes, each as often as the other,
/// in whatever order.
pub open spec fn same_attributes(a: Seq<AttributeView>, b: Seq<AttributeView>) -> bool {
    forall|x: AttributeView| occurrences(a, x) == occurrences(b, x)
}

impl InstanceIdView {
    /// The two identifiers name the same instance: they have the same number
    /// and the same attributes, in whatever order.
    pub open spec fn same_as(self, other: InstanceIdView) -> bool {
        self.id == other.id && same_attributes(self.attributes, other.attributes)
    }
}

/// What occurs among the attributes stands at some position.
pub proof fn lemma_occurs_somewhere(attributes: Seq<AttributeView>, x: AttributeView)
    requires
        occurrences(attributes, x) > 0,
    ensures
        exists|i: int| 0 <= i < attributes.len() && attributes[i] == x,
    decreases attributes.len(),
{
    if attributes.last() == x {
        assert(attributes[attributes.len() - 1] == x);
    } else {
        lemma_occurs_somewhere(attributes.drop_last(), x);
        let i = choose|i: int| 0 <= i < attributes.len() - 1 && attributes.drop_last()[i] == x;
        assert(attributes[i] == x);
    }
}

/// Among attributes put one after the other, each occurs as often as in both
/// parts together.
pub proof fn lemma_occurrences_of_concat(a: Seq<AttributeView>, b: Seq<AttributeView>, x: AttributeView)
    ensures
        occurrences(a + b, x) == occurrences(a, x) + occurrences(b, x),
    decreases b.len(),
{
    if b.len() == 0 {
        assert(a + b =~= a);
    } else {
        lemma_occurrences_of_concat(a, b.drop_last(), x);
        assert((a + b).drop_last() =~= a + b.drop_last());
    }
}

/// The order of its attributes does not tell which instance an identifier
/// names: attributes put the other way round are the same attributes.
pub proof fn lemma_order_is_not_significant(id: u32, a: Seq<AttributeView>, b: Seq<AttributeView>)
    ensures
        (InstanceIdView { id, attributes: a + b }).same_as(
            InstanceIdView { id, attributes: b + a },
        ),
{
    assert forall|x: AttributeView| occurrences(a + b, x) == occurrences(b + a, x) by {
        lemma_occurrences_of_concat(a, b, x);
        lemma_occurrences_of_concat(b, a, x);
    }
}

/// The attribute that `piece` writes: a key, `(`, a value, `)`. The key ends
/// at the first `(`; the value is all that stands between it and the `)` at
/// the end.
pub open spec fn attribute_of(piece: Seq<char>) -> Result<AttributeView, IdError> {
    let open = until(piece, '(');
    if open == piece.len() {
        Err(IdError::MissingValue)
    } else {
        let rest = piece.skip(open + 1);
        if rest.len() > 0 && rest.last() == ')' {
            Ok(AttributeView { key: piece.take(open), value: rest.drop_last() })
        } else {
            Err(IdError::UnclosedValue)
        }
    }
}

/// The attributes that `text` writes, one after the other with `~` between
/// them; the error of the first that is not well written.
pub open spec fn attributes_of(text: Seq<char>) -> Result<Seq<AttributeView>, IdError>
    decreases text.len(),
{
    let end = until(text, '~');
    match attribute_of(text.take(end)) {
        Err(error) => Err(error),
        Ok(first) => {
            if 0 <= end < text.len() {
                match attributes_of(text.skip(end + 1)) {
                    Ok(rest) => Ok(seq![first] + rest),
                    Err(error) => Err(error),
                }
            } else {
                Ok(seq![first])
            }
        },
    }
}

/// The attributes that follow the number in `text`, where `end` is the
/// position of the first `~` or the length of `text`.
pub open spec fn trailing_attributes(text: Seq<char>, end: int) -> Result<
    Seq<AttributeView>,
    IdError,
> {
    if 0 <= end < text.len() {
        attributes_of(text.skip(end + 1))
    } else {
        Ok(Seq::empty())
    }
}

/// The instance that `text` names: a number that fits 32 bits, then any
/// number of attributes, each after a `~`. The number is written with
/// digits, which a single `+` may precede; it may not be negative. Where both
/// the number and an attribute are not well written, the error is that of
/// the number.
pub open spec fn instance_of(text: Seq<char>) -> Result<InstanceIdView, IdError> {
    let end = until(text, '~');
    match unsigned_number(text.take(end)) {
        Some(id) if id <= u32::MAX => match trailing_attributes(text, end) {
            Ok(attributes) => Ok(InstanceIdView { id: id as u32, attributes }),
            Err(error) => Err(error),
        },
        _ => Err(IdError::InvalidInstanceNumber),
    }
}

/// How an attribute is written: key, `(`, value, `)`.
pub open spec fn attribute_text(attribute: AttributeView) -> Seq<char> {
    attribute.key + seq!['('] + attribute.value + seq![')']
}

/// How the attributes are written: each as `~` and the attribute.
pub open spec fn attributes_text(attributes: Seq<AttributeView>) -> Seq<char>
    decreases attributes.len(),
{
    if attributes.len() == 0 {
        Seq::empty()
    } else {
        attributes_text(attributes.drop_last()) + seq!['~'] + attribute_text(attributes.last())
    }
}

/// How the instance is written: its number in base ten, then its attributes.
pub open spec fn instance_text(instance: InstanceIdView) -> Seq<char> {
    decimal_text(instance.id as nat) + attributes_text(instance.attributes)
}

/// Reads one attribute.
pub fn parse_attribute(piece: &[char]) -> (attribute: Result<Attribute, IdError>)
    ensures
        attribute is Ok <==> attribute_of(piece@) is Ok,
        attribute is Ok ==> attribute->Ok_0@ == attribute_of(piece@)->Ok_0,
        attribute is Err ==> attribute->Err_0 == attribute_of(piece@)->Err_0,
{
    let open = position_of(piece, '(');
    if open == piece.len() {
        return Err(IdError::MissingValue);
    }
    let rest = part(piece, open + 1, piece.len());
    assert(rest@ =~= piece@.skip(open + 1));
    if rest.len() == 0 || rest[rest.len() - 1] != ')' {
        return Err(IdError::UnclosedValue);
    }
    let key = string_of(part(piece, 0, open));
    let value = string_of(part(rest, 0, rest.len() - 1));
    assert(piece@.subrange(0, open as int) =~= piece@.take(open as int));
    assert(rest@.subrange(0, rest@.len() - 1) =~= rest@.drop_last());
    Ok(Attribute { key, value })
}

/// What reading attributes came to, over the views of those read.
pub open spec fn attributes_match(
    read: Result<Vec<Attribute>, IdError>,
    expected: Result<Seq<AttributeView>, IdError>,
) -> bool {
    match read {
        Ok(attributes) => expected == Ok::<Seq<AttributeView>, IdError>(attributes.deep_view()),
        Err(error) => expected == Err::<Seq<AttributeView>, IdError>(error),
    }
}

/// Reads the attributes that stand in `text`, with `~` between them.
pub fn parse_attributes(text: &[char]) -> (attributes: Result<Vec<Attribute>, IdError>)
    ensures
        attributes_match(attributes, attributes_of(text@)),
{
    let mut read: Vec<Attribute> = Vec::new();
    let mut from: usize = 0;
    proof {
        assert(text@.skip(0) =~= text@);
        assert(read.deep_view() =~= Seq::<AttributeView>::empty());
        if let Ok(rest) = attributes_of(text@) {
            assert(read.deep_view() + rest =~= rest);
        }
    }
    loop
        invariant
            from <= text@.len(),
            attributes_of(text@) == match attributes_of(text@.skip(from as int)) {
                Ok(rest) => Ok::<Seq<AttributeView>, IdError>(read.deep_view() + rest),
                Err(error) => Err(error),
            },
        decreases text@.len() - from,
    {
        let rest = part(text, from, text.len());
        assert(rest@ =~= text@.skip(from as int));
        let end = position_of(rest, '~');
        let piece = part(rest, 0, end);
        assert(piece@ =~= rest@.take(end as int));
        match parse_attribute(piece) {
            Err(error) => {
                return Err(error);
            },
            Ok(attribute) => {
                let ghost before = read.deep_view();
                read.push(attribute);
                assert(read.deep_view() =~= before + seq![attribute@]);
                if end == rest.len() {
                    return Ok(read);
                }
                proof {
                    assert(rest@.skip(end + 1) =~= text@.skip(from + end + 1));
                    match attributes_of(rest@.skip(end + 1)) {
                        Ok(more) => {
                            assert(before + (seq![attribute@] + more) =~= read.deep_view() + more);
                        },
                        Err(_) => {},
                    }
                }
                from = from + end + 1;
            },
        }
    }
}

/// How often `x` is among `attributes`.
fn count_of(attributes: &Vec<Attribute>, x: &Attribute) -> (count: usize)
    ensures
        count == occurrences(attributes.deep_view(), x@),
{
    let mut count: usize = 0;
    let mut i: usize = 0;
    while i < attributes.len()
        invariant
            i <= attributes.len(),
            count <= i,
            count == occurrences(attributes.deep_view().take(i as int), x@),
        decreases attributes.len() - i,
    {
        let ghost next = attributes.deep_view().take(i + 1);
        assert(next.drop_last() =~= attributes.deep_view().take(i as int));
        assert(next.last() == attributes[i as int]@);
        if attributes[i].key == x.key && attributes[i].value == x.value {
            count = count + 1;
        }
        i = i + 1;
    }
    assert(attributes.deep_view().take(i as int) =~= attributes.deep_view());
    count
}

/// Every attribute of `a` occurs as often in `b` as in `a`.
pub open spec fn counts_agree(a: Seq<AttributeView>, b: Seq<AttributeView>) -> bool {
    forall|i: int| 0 <= i < a.len() ==> occurrences(a, #[trigger] a[i]) == occurrences(b, a[i])
}

/// Whether every attribute of `a` occurs as often in `b` as in `a`.
fn agree(a: &Vec<Attribute>, b: &Vec<Attribute>) -> (all: bool)
    ensures
        all == counts_agree(a.deep_view(), b.deep_view()),
{
    let mut i: usize = 0;
    while i < a.len()
        invariant
            i <= a.len(),
            forall|j: int|
                0 <= j < i ==> occurrences(a.deep_view(), #[trigger] a.deep_view()[j])
                    == occurrences(b.deep_view(), a.deep_view()[j]),
        decreases a.len() - i,
    {
        assert(a.deep_view()[i as int] == a[i as int]@);
        if count_of(a, &a[i]) != count_of(b, &a[i]) {
            return false;
        }
        i = i + 1;
    }
    true
}

/// Attributes that agree both ways are the same attributes.
pub proof fn lemma_same_attributes(a: Seq<AttributeView>, b: Seq<AttributeView>)
    ensures
        same_attributes(a, b) <==> counts_agree(a, b) && counts_agree(b, a),
{
    if counts_agree(a, b) && counts_agree(b, a) {
        assert forall|x: AttributeView| occurrences(a, x) == occurrences(b, x) by {
            if occurrences(a, x) > 0 {
                lemma_occurs_somewhere(a, x);
            } else if occurrences(b, x) > 0 {
                lemma_occurs_somewhere(b, x);
            }
        }
    }
}

impl InstanceId {
    /// Whether the two identifiers name the same instance: whether they have
    /// the same number and the same attributes, in whatever order.
    pub fn same_as(&self, other: &InstanceId) -> (same: bool)
        ensures
            same == self@.same_as(other@),
    {
        proof {
            lemma_same_attributes(self.attributes.deep_view(), other.attributes.deep_view());
        }
        self.id == other.id && agree(&self.attributes, &other.attributes) && agree(
            &other.attributes,
            &self.attributes,
        )
    }

    /// Reads an instance's identifier from the characters `text`.
    pub fn parse_chars(text: &[char]) -> (id: Result<InstanceId, IdError>)
        ensures
            id is Ok <==> instance_of(text@) is Ok,
            id is Ok ==> id->Ok_0@ == instance_of(text@)->Ok_0,
            id is Err ==> id->Err_0 == instance_of(text@)->Err_0,
    {
        let end = position_of(text, '~');
        let number = part(text, 0, end);
        assert(number@ =~= text@.take(end as int));
        let attributes = if end < text.len() {
            let rest = part(text, end + 1, text.len());
            assert(rest@ =~= text@.skip(end + 1));
            parse_attributes(rest)
        } else {
            Ok(Vec::new())
        };
        let id = match parse_u32(number) {
            Some(id) => id,
            None => {
                return Err(IdError::InvalidInstanceNumber);
            },
        };
        match attributes {
            Ok(attributes) => {
                assert(attributes.deep_view() =~= trailing_attributes(text@, end as int)->Ok_0);
                Ok(InstanceId { id, attributes })
            },
            Err(error) => Err(error),
        }
    }

    /// Reads an instance's identifier.
    pub fn parse(text: &str) -> (id: Result<InstanceId, IdError>)
        ensures
            id is Ok <==> instance_of(text@) is Ok,
            id is Ok ==> id->Ok_0@ == instance_of(text@)->Ok_0,
            id is Err ==> id->Err_0 == instance_of(text@)->Err_0,
    {
        let chars = chars_of(text);
        InstanceId::parse_chars(chars.as_slice())
    }

    /// Writes this identifier: the number, then each attribute as `~`, key,
    /// `(`, value, `)`, in their order.
    pub fn to_text(&self) -> (text: String)
        ensures
            text@ == instance_text(self@),
    {
        let mut text = String::new();
        push_decimal(&mut text, self.id);
        let mut i: usize = 0;
        while i < self.attributes.len()
            invariant
                i <= self.attributes.len(),
                text@ == decimal_text(self.id as nat) + attributes_text(
                    self.attributes.deep_view().take(i as int),
                ),
            decreases self.attributes.len() - i,
        {
            let ghost before = text@;
            let ghost seen = self.attributes.deep_view().take(i as int);
            let ghost next = self.attributes.deep_view().take(i + 1);
            let attribute = &self.attributes[i];
            text.push('~');
            text.append(attribute.key.as_str());
            text.push('(');
            text.append(attribute.value.as_str());
            text.push(')');
            proof {
                assert(next.drop_last() =~= seen);
                assert(next.last() == attribute@);
                assert(text@ =~= decimal_text(self.id as nat) + attributes_text(next));
            }
            i = i + 1;
        }
        assert(self.attributes.deep_view().take(i as int) =~= self.attributes.deep_view());
        text
    }
}

/// The identifier of a room: a world and an instance of it.
#[derive(Clone, Debug)]
pub struct RoomId {
    pub world: WorldId,
    pub instance: InstanceId,
}

/// A room's identifier as a world and the view of an instance.
pub struct RoomIdView {
    pub world: WorldId,
    pub instance: InstanceIdView,
}

impl View for RoomId {
    type V = RoomIdView;

    open spec fn view(&self) -> RoomIdView {
        RoomIdView { world: self.world, instance: self.instance@ }
    }
}

/// The room that `text` names: a world's identifier, `:`, and an instance's
/// identifier, the world ending at the first `:`. Where both parts are not
/// well written, the error is that of the world.
pub open spec fn room_of(text: Seq<char>) -> Result<RoomIdView, IdError> {
    let colon = until(text, ':');
    if 0 <= colon < text.len() {
        match WorldId::of_text(text.take(colon)) {
            Ok(world) => match instance_of(text.skip(colon + 1)) {
                Ok(instance) => Ok(RoomIdView { world, instance }),
                Err(error) => Err(error),
            },
            Err(error) => Err(error),
        }
    } else {
        Err(IdError::MissingColon)
    }
}

/// How the room is written: world, `:`, instance.
pub open spec fn room_text(room: RoomIdView) -> Seq<char> {
    room.world.text() + seq![':'] + instance_text(room.instance)
}

impl RoomIdView {
    /// The two identifiers name the same room: the same world, and the same
    /// instance of it.
    pub open spec fn same_as(self, other: RoomIdView) -> bool {
        self.world == other.world && self.instance.same_as(other.instance)
    }
}

impl RoomId {
    /// Whether the two identifiers name the same room.
    pub fn same_as(&self, other: &RoomId) -> (same: bool)
        ensures
            same == self@.same_as(other@),
    {
        self.world.uuid == other.world.uuid && self.instance.same_as(&other.instance)
    }

    /// Reads a room's identifier from the characters `text`. What `to_text`
    /// writes is read back as the identifier that was written, as long as
    /// no key of an attribute holds `~` or `(` and no value holds `~`.
    pub fn parse_chars(text: &[char]) -> (id: Result<RoomId, IdError>)
        ensures
            id is Ok <==> room_of(text@) is Ok,
            id is Ok ==> id->Ok_0@ == room_of(text@)->Ok_0,
            id is Err ==> id->Err_0 == room_of(text@)->Err_0,
            forall|written: RoomIdView|
                all_writable(written.instance.attributes) && text@ == #[trigger] room_text(
                    written,
                ) ==> id is Ok && id->Ok_0@ == written,
    {
        assert forall|written: RoomIdView|
            all_writable(written.instance.attributes) && text@ == #[trigger] room_text(
                written,
            ) implies {
            &&& until(text@, ':') == 41
            &&& text@.len() > 41
            &&& text@.take(41) == written.world.text()
            &&& text@.skip(42) == instance_text(written.instance)
            &&& instance_of(text@.skip(42)) == Ok::<InstanceIdView, IdError>(written.instance)
        } by {
            lemma_room_is_read_back(written);
        }
        let colon = position_of(text, ':');
        if colon == text.len() {
            return Err(IdError::MissingColon);
        }
        let world_text = part(text, 0, colon);
        let instance_text = part(text, colon + 1, text.len());
        assert(world_text@ =~= text@.take(colon as int));
        assert(instance_text@ =~= text@.skip(colon + 1));
        let world = match WorldId::parse_chars(world_text) {
            Ok(world) => world,
            Err(error) => {
                return Err(error);
            },
        };
        match InstanceId::parse_chars(instance_text) {
            Ok(instance) => Ok(RoomId { world, instance }),
            Err(error) => Err(error),
        }
    }

    /// Reads a room's identifier. What `to_text` writes is read back as the
    /// identifier that was written, as long as no key of an attribute holds
    /// `~` or `(` and no value holds `~`.
    pub fn parse(text: &str) -> (id: Result<RoomId, IdError>)
        ensures
            id is Ok <==> room_of(text@) is Ok,
            id is Ok ==> id->Ok_0@ == room_of(text@)->Ok_0,
            id is Err ==> id->Err_0 == room_of(text@)->Err_0,
            forall|written: RoomIdView|
                all_writable(written.instance.attributes) && text@ == #[trigger] room_text(
                    written,
                ) ==> id is Ok && id->Ok_0@ == written,
    {
        let chars = chars_of(text);
        RoomId::parse_chars(chars.as_slice())
    }

    /// Writes this identifier: world, `:`, instance.
    pub fn to_text(&self) -> (text: String)
        ensures
            text@ == room_text(self@),
    {
        let mut text = self.world.to_text();
        text.push(':');
        text.append(self.instance.to_text().as_str());
        text
    }
}

} // verus!
