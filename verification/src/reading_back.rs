//! What is written can be read back: an instance's identifier that is
//! written and then read is the identifier that was written, attributes in
//! their order.

use crate::ids::{
    attribute_of, attribute_text, attributes_of, attributes_text, hex_digit, hex_digit_at,
    hyphenated_text, instance_of, instance_text, room_text, trailing_attributes, world_tag,
    AttributeView, IdError, InstanceIdView, RoomIdView, WorldId,
};
use crate::number::{
    all_digits, decimal_text, decimal_value, digit_char, digit_value, is_digit, unsigned_number,
};
use crate::text::{lemma_until, until};
use vstd::prelude::*;

verus! {

/// The attribute can be written and read back: its key holds neither `~` nor
/// `(`, and its value holds no `~`.
pub open spec fn writable(attribute: AttributeView) -> bool {
    &&& forall|i: int|
        0 <= i < attribute.key.len() ==> attribute.key[i] != '~' && attribute.key[i] != '('
    &&& forall|i: int| 0 <= i < attribute.value.len() ==> attribute.value[i] != '~'
}

/// Every one of the attributes can be written and read back.
pub open spec fn all_writable(attributes: Seq<AttributeView>) -> bool {
    forall|i: int| 0 <= i < attributes.len() ==> writable(#[trigger] attributes[i])
}

/// A number is written with digits, at least one, and they write the number.
pub proof fn lemma_decimal_text_is_read_back(n: nat)
    ensures
        decimal_text(n).len() > 0,
        all_digits(decimal_text(n)),
        decimal_value(decimal_text(n)) == n,
        unsigned_number(decimal_text(n)) == Some(n as int),
    decreases n,
{
    let text = decimal_text(n);
    let last = (n % 10) as int;
    assert(is_digit(digit_char(last)) && digit_value(digit_char(last)) == last);
    if n < 10 {
        assert(text.drop_last() =~= Seq::<char>::empty());
        assert(text.last() == digit_char(last));
        assert(decimal_value(text.drop_last()) == 0);
    } else {
        lemma_decimal_text_is_read_back(n / 10);
        assert(text.drop_last() =~= decimal_text(n / 10));
        assert(text.last() == digit_char(last));
        assert forall|i: int| 0 <= i < text.len() implies is_digit(#[trigger] text[i]) by {
            if i < text.len() - 1 {
                assert(text[i] == decimal_text(n / 10)[i]);
            }
        }
    }
    assert(is_digit(text[0]));
}

/// An attribute whose key holds no `(` is read back as it was written.
pub proof fn lemma_attribute_is_read_back(attribute: AttributeView)
    requires
        forall|i: int| 0 <= i < attribute.key.len() ==> attribute.key[i] != '(',
    ensures
        attribute_of(attribute_text(attribute)) == Ok::<AttributeView, IdError>(attribute),
{
    let piece = attribute_text(attribute);
    let open = attribute.key.len() as int;
    lemma_until(piece, '(', open);
    let rest = piece.skip(open + 1);
    assert(rest =~= attribute.value + seq![')']);
    assert(piece.take(open) =~= attribute.key);
    assert(rest.drop_last() =~= attribute.value);
}

/// The first of several attributes is written first.
pub proof fn lemma_first_attribute_is_written_first(first: AttributeView, rest: Seq<AttributeView>)
    ensures
        attributes_text(seq![first] + rest) == seq!['~'] + attribute_text(first) + attributes_text(
            rest,
        ),
    decreases rest.len(),
{
    let all = seq![first] + rest;
    if rest.len() == 0 {
        assert(all.drop_last() =~= Seq::<AttributeView>::empty());
        assert(all.last() == first);
        assert(attributes_text(all.drop_last()) =~= Seq::<char>::empty());
        assert(attributes_text(rest) =~= Seq::<char>::empty());
        assert(attributes_text(all) =~= seq!['~'] + attribute_text(first) + attributes_text(rest));
    } else {
        lemma_first_attribute_is_written_first(first, rest.drop_last());
        assert(all.drop_last() =~= seq![first] + rest.drop_last());
        assert(all.last() == rest.last());
        assert(attributes_text(all) =~= seq!['~'] + attribute_text(first) + attributes_text(rest));
    }
}

/// What follows a written attribute, and what follows a written number, is
/// nothing or begins with `~`.
pub proof fn lemma_attributes_begin_with_tilde(attributes: Seq<AttributeView>)
    ensures
        attributes.len() == 0 ==> attributes_text(attributes).len() == 0,
        attributes.len() > 0 ==> attributes_text(attributes).len() > 0 && attributes_text(
            attributes,
        )[0] == '~',
{
    if attributes.len() > 0 {
        let first = attributes[0];
        let rest = attributes.skip(1);
        assert(attributes =~= seq![first] + rest);
        lemma_first_attribute_is_written_first(first, rest);
    }
}

/// Attributes that can be written are read back as they were written, in
/// their order.
pub proof fn lemma_attributes_are_read_back(attributes: Seq<AttributeView>)
    requires
        attributes.len() > 0,
        all_writable(attributes),
    ensures
        attributes_text(attributes).len() > 0,
        attributes_text(attributes)[0] == '~',
        attributes_of(attributes_text(attributes).skip(1)) == Ok::<Seq<AttributeView>, IdError>(
            attributes,
        ),
    decreases attributes.len(),
{
    let first = attributes[0];
    let rest = attributes.skip(1);
    assert(attributes =~= seq![first] + rest);
    lemma_first_attribute_is_written_first(first, rest);
    lemma_attributes_begin_with_tilde(rest);
    let piece = attribute_text(first);
    let text = attributes_text(attributes).skip(1);
    assert(text =~= piece + attributes_text(rest));
    assert(writable(first));
    let end = piece.len() as int;
    lemma_until(text, '~', end);
    assert(text.take(end) =~= piece);
    lemma_attribute_is_read_back(first);
    if rest.len() > 0 {
        assert forall|i: int| 0 <= i < rest.len() implies writable(#[trigger] rest[i]) by {
            assert(rest[i] == attributes[i + 1]);
        }
        lemma_attributes_are_read_back(rest);
        assert(text.skip(end + 1) =~= attributes_text(rest).skip(1));
    }
}

/// An instance's identifier that is written and then read is the identifier
/// that was written, with its attributes in their order, as long as no key
/// holds `~` or `(` and no value holds `~`.
pub proof fn lemma_instance_is_read_back(instance: InstanceIdView)
    requires
        all_writable(instance.attributes),
    ensures
        instance_of(instance_text(instance)) == Ok::<InstanceIdView, IdError>(instance),
{
    let number = decimal_text(instance.id as nat);
    let text = instance_text(instance);
    let end = number.len() as int;
    lemma_decimal_text_is_read_back(instance.id as nat);
    lemma_attributes_begin_with_tilde(instance.attributes);
    assert forall|j: int| 0 <= j < end implies text[j] != '~' by {
        assert(is_digit(number[j]));
    }
    lemma_until(text, '~', end);
    assert(text.take(end) =~= number);
    if instance.attributes.len() > 0 {
        lemma_attributes_are_read_back(instance.attributes);
        assert(text.skip(end + 1) =~= attributes_text(instance.attributes).skip(1));
    } else {
        assert(instance.attributes =~= Seq::<AttributeView>::empty());
        assert(trailing_attributes(text, end) == Ok::<Seq<AttributeView>, IdError>(Seq::empty()));
    }
}

/// A written world holds no `:`: its tag has none, and the rest is
/// hexadecimal digits and hyphens.
pub proof fn lemma_written_world_has_no_colon(world: WorldId)
    ensures
        world.text().len() == 41,
        forall|i: int| 0 <= i < 41 ==> world.text()[i] != ':',
{
    reveal_strlit("wrld_");
    let text = world.text();
    assert forall|i: int| 0 <= i < 41 implies text[i] != ':' by {
        if i >= 5 {
            let at = i - 5;
            assert(text[i] == hyphenated_text(world.uuid)[at]);
            if !(at == 8 || at == 13 || at == 18 || at == 23) {
                let digit = hex_digit_at(world.uuid, at - crate::ids::hyphens_before(at));
                assert(0 <= digit < 16);
                assert(hex_digit(digit) != ':');
            }
        }
    }
}

/// A written room is cut at the `:` between its world and its instance: the
/// first `:` of the text stands after the written world, and after it stands
/// the written instance, which is read back as it was written.
pub proof fn lemma_room_is_read_back(room: RoomIdView)
    requires
        all_writable(room.instance.attributes),
    ensures
        until(room_text(room), ':') == 41,
        room_text(room).len() > 41,
        room_text(room).take(41) == room.world.text(),
        room_text(room).skip(42) == instance_text(room.instance),
        instance_of(instance_text(room.instance)) == Ok::<InstanceIdView, IdError>(room.instance),
{
    lemma_written_world_has_no_colon(room.world);
    lemma_instance_is_read_back(room.instance);
    let text = room_text(room);
    assert forall|j: int| 0 <= j < 41 implies text[j] != ':' by {
        assert(text[j] == room.world.text()[j]);
    }
    lemma_until(text, ':', 41);
    assert(text.take(41) =~= room.world.text());
    assert(text.skip(42) =~= instance_text(room.instance));
}

} // verus!
