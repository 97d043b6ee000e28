//! What holds of the texts of bodies.

use vstd::prelude::*;
use crate::errors::{DecodeError, EncodeError};
use crate::frame::COMMA;
use crate::messeges::fields::{
    field_of_text, field_text, field_type, lemma_field_read_write, lemma_field_text_bytes,
    lemma_field_write_read, valid_field, NmeaFields,
};
use crate::messeges::tokens::{
    join, lemma_join_split, lemma_split_append, lemma_split_plain, split,
};
use crate::messeges::{
    default_fields, fields_of_tokens, fields_text, first_mismatch, message_of_text, message_text,
    valid_message, MessageView,
};
use crate::schema::{kind_name, schema, FieldType, SentenceKind};
use crate::text::lacks;

verus! {

/// The texts of `fields`, one for each.
pub open spec fn field_texts(fields: Seq<NmeaFields>) -> Seq<Seq<u8>> {
    Seq::new(fields.len(), |i: int| field_text(fields[i]))
}

/// What `first_mismatch` finds: a field of another type than named, with
/// only fields of the types named before it; or nothing, where every
/// field is of the type named.
pub proof fn lemma_first_mismatch_found(types: Seq<FieldType>, fields: Seq<NmeaFields>)
    requires
        types.len() == fields.len(),
    ensures
        match first_mismatch(types, fields) {
            Some(i) => {
                &&& 0 <= i < fields.len()
                &&& field_type(fields[i]) != types[i]
                &&& forall|j: int| 0 <= j < i ==> field_type(#[trigger] fields[j]) == types[j]
            },
            None => forall|j: int|
                0 <= j < fields.len() ==> field_type(#[trigger] fields[j]) == types[j],
        },
    decreases fields.len(),
{
    if fields.len() > 0 {
        let f = fields.drop_last();
        let t = types.drop_last();
        lemma_first_mismatch_found(t, f);
        match first_mismatch(t, f) {
            Some(i) => {
                assert forall|j: int| 0 <= j < i implies field_type(#[trigger] fields[j])
                    == types[j] by {
                    assert(f[j] == fields[j] && t[j] == types[j]);
                }
            },
            None => {
                assert forall|j: int| 0 <= j < f.len() implies field_type(#[trigger] fields[j])
                    == types[j] by {
                    assert(f[j] == fields[j] && t[j] == types[j]);
                }
            },
        }
    }
}

/// A mismatch among the first `k` fields is the first mismatch of all.
pub proof fn lemma_first_mismatch_prefix(types: Seq<FieldType>, fields: Seq<NmeaFields>, k: int)
    requires
        types.len() == fields.len(),
        0 <= k <= fields.len(),
        first_mismatch(types.take(k), fields.take(k)) is Some,
    ensures
        first_mismatch(types, fields) == first_mismatch(types.take(k), fields.take(k)),
    decreases fields.len() - k,
{
    if k == fields.len() {
        assert(types.take(k) =~= types);
        assert(fields.take(k) =~= fields);
    } else {
        assert(types.take(k + 1).drop_last() =~= types.take(k));
        assert(fields.take(k + 1).drop_last() =~= fields.take(k));
        lemma_first_mismatch_prefix(types, fields, k + 1);
    }
}

/// Fields that are all of the types named have no mismatch.
pub proof fn lemma_no_mismatch(types: Seq<FieldType>, fields: Seq<NmeaFields>)
    requires
        types.len() == fields.len(),
        forall|i: int| 0 <= i < fields.len() ==> field_type(#[trigger] fields[i]) == types[i],
    ensures
        first_mismatch(types, fields) is None,
    decreases fields.len(),
{
    if fields.len() > 0 {
        let f = fields.drop_last();
        let t = types.drop_last();
        lemma_no_mismatch(t, f);
    }
}

/// Where texts stand for fields, there is one field for each text, and
/// each text stands for its field.
pub proof fn lemma_fields_of_tokens_each(types: Seq<FieldType>, tokens: Seq<Seq<u8>>)
    requires
        types.len() == tokens.len(),
        fields_of_tokens(types, tokens) is Ok,
    ensures
        fields_of_tokens(types, tokens)->Ok_0.len() == types.len(),
        forall|i: int|
            0 <= i < types.len() ==> field_of_text(#[trigger] types[i], tokens[i]) == Some(
                fields_of_tokens(types, tokens)->Ok_0[i],
            ),
    decreases types.len(),
{
    if types.len() > 0 {
        let t = types.drop_last();
        let k = tokens.drop_last();
        lemma_fields_of_tokens_each(t, k);
        let fields = fields_of_tokens(types, tokens)->Ok_0;
        assert forall|i: int| 0 <= i < types.len() implies field_of_text(
            #[trigger] types[i],
            tokens[i],
        ) == Some(fields[i]) by {
            if i < t.len() {
                assert(t[i] == types[i] && k[i] == tokens[i]);
            }
        }
    }
}

/// Where texts do not all stand for fields, the failure names the first
/// text that stands for none.
pub proof fn lemma_fields_of_tokens_failed(types: Seq<FieldType>, tokens: Seq<Seq<u8>>)
    requires
        types.len() == tokens.len(),
        types.len() <= usize::MAX,
        fields_of_tokens(types, tokens) is Err,
    ensures
        fields_of_tokens(types, tokens)->Err_0 is FieldTypeMismatch,
        ({
            let at = fields_of_tokens(types, tokens)->Err_0->FieldTypeMismatch_position as int;
            &&& 0 <= at < types.len()
            &&& field_of_text(types[at], tokens[at]) is None
            &&& forall|j: int|
                0 <= j < at ==> field_of_text(#[trigger] types[j], tokens[j]) is Some
        }),
    decreases types.len(),
{
    let t = types.drop_last();
    let k = tokens.drop_last();
    if fields_of_tokens(t, k) is Err {
        lemma_fields_of_tokens_failed(t, k);
        let at = fields_of_tokens(t, k)->Err_0->FieldTypeMismatch_position as int;
        assert forall|j: int| 0 <= j < at implies field_of_text(#[trigger] types[j], tokens[j])
            is Some by {
            assert(t[j] == types[j] && k[j] == tokens[j]);
        }
    } else {
        lemma_fields_of_tokens_each(t, k);
        assert forall|j: int| 0 <= j < t.len() implies field_of_text(
            #[trigger] types[j],
            tokens[j],
        ) is Some by {
            assert(t[j] == types[j] && k[j] == tokens[j]);
        }
    }
}

/// Where the first `k` texts fail to stand for fields, all of them fail
/// in the same way.
pub proof fn lemma_fields_of_tokens_prefix(
    types: Seq<FieldType>,
    tokens: Seq<Seq<u8>>,
    k: int,
)
    requires
        types.len() == tokens.len(),
        0 <= k <= types.len(),
        fields_of_tokens(types.take(k), tokens.take(k)) is Err,
    ensures
        fields_of_tokens(types, tokens) == fields_of_tokens(types.take(k), tokens.take(k)),
    decreases types.len() - k,
{
    if k == types.len() {
        assert(types.take(k) =~= types);
        assert(tokens.take(k) =~= tokens);
    } else {
        assert(types.take(k + 1).drop_last() =~= types.take(k));
        assert(tokens.take(k + 1).drop_last() =~= tokens.take(k));
        lemma_fields_of_tokens_prefix(types, tokens, k + 1);
    }
}

/// Cutting a name followed by the texts of valid fields gives the name
/// and those texts.
pub proof fn lemma_split_fields(name: Seq<u8>, fields: Seq<NmeaFields>)
    requires
        lacks(name, COMMA),
        forall|i: int| 0 <= i < fields.len() ==> valid_field(#[trigger] fields[i]),
    ensures
        split(name + fields_text(fields), COMMA) == seq![name] + field_texts(fields),
    decreases fields.len(),
{
    if fields.len() == 0 {
        lemma_split_plain(name, COMMA);
    } else {
        let rest = fields.drop_last();
        let last = fields.last();
        lemma_split_fields(name, rest);
        assert forall|i: int| 0 <= i < field_text(last).len() implies #[trigger] field_text(
            last,
        )[i] != COMMA by {
            lemma_field_text_bytes(last, i);
        }
        lemma_split_append(name + fields_text(rest), COMMA, field_text(last));
        assert(name + fields_text(fields) =~= name + fields_text(rest) + seq![COMMA] + field_text(
            last,
        ));
    }
}

/// The text of fields behind a name is the join of the name and the
/// texts of the fields.
pub proof fn lemma_fields_text_join(name: Seq<u8>, fields: Seq<NmeaFields>)
    ensures
        name + fields_text(fields) == join(seq![name] + field_texts(fields), COMMA),
    decreases fields.len(),
{
    let parts = seq![name] + field_texts(fields);
    if fields.len() > 0 {
        let rest = fields.drop_last();
        lemma_fields_text_join(name, rest);
        assert(parts.drop_last() =~= seq![name] + field_texts(rest));
    }
}

/// Reading the texts of valid fields, each as its own type, gives the
/// fields back.
pub proof fn lemma_fields_read_write(types: Seq<FieldType>, fields: Seq<NmeaFields>)
    requires
        types.len() == fields.len(),
        forall|i: int|
            0 <= i < fields.len() ==> field_type(#[trigger] fields[i]) == types[i] && valid_field(
                fields[i],
            ),
    ensures
        fields_of_tokens(types, field_texts(fields)) == Ok::<Seq<NmeaFields>, DecodeError>(fields),
    decreases fields.len(),
{
    if fields.len() == 0 {
        assert(fields =~= Seq::<NmeaFields>::empty());
    } else {
        let f = fields.drop_last();
        let t = types.drop_last();
        lemma_fields_read_write(t, f);
        assert(field_texts(fields).drop_last() =~= field_texts(f));
        let last = fields[fields.len() - 1];
        lemma_field_read_write(last);
        assert(f.push(last) =~= fields);
    }
}

/// Cutting a name followed by the texts of valid fields, and reading the
/// parts behind the name as the types of the fields, gives the fields
/// back.
pub proof fn lemma_body_read_write(name: Seq<u8>, types: Seq<FieldType>, fields: Seq<NmeaFields>)
    requires
        lacks(name, COMMA),
        types.len() == fields.len(),
        forall|i: int|
            0 <= i < fields.len() ==> field_type(#[trigger] fields[i]) == types[i] && valid_field(
                fields[i],
            ),
    ensures
        split(name + fields_text(fields), COMMA).len() == fields.len() + 1,
        split(name + fields_text(fields), COMMA)[0] == name,
        fields_of_tokens(types, split(name + fields_text(fields), COMMA).skip(1)) == Ok::<
            Seq<NmeaFields>,
            DecodeError,
        >(fields),
{
    lemma_split_fields(name, fields);
    lemma_fields_read_write(types, fields);
    let tokens = split(name + fields_text(fields), COMMA);
    assert(tokens.skip(1) =~= field_texts(fields));
}

/// Where the parts of a text behind the first stand for fields, the
/// text is the first part followed by the text of those fields, and the
/// fields are valid and of the types asked for.
pub proof fn lemma_body_write_read(s: Seq<u8>, types: Seq<FieldType>)
    requires
        split(s, COMMA).len() - 1 == types.len(),
        fields_of_tokens(types, split(s, COMMA).skip(1)) is Ok,
    ensures
        ({
            let fields = fields_of_tokens(types, split(s, COMMA).skip(1))->Ok_0;
            &&& fields.len() == types.len()
            &&& forall|i: int|
                0 <= i < fields.len() ==> field_type(#[trigger] fields[i]) == types[i]
                    && valid_field(fields[i])
            &&& split(s, COMMA)[0] + fields_text(fields) == s
        }),
{
    let parts = split(s, COMMA);
    let tokens = parts.skip(1);
    let fields = fields_of_tokens(types, tokens)->Ok_0;
    lemma_fields_of_tokens_each(types, tokens);
    assert forall|i: int| 0 <= i < fields.len() implies field_type(#[trigger] fields[i])
        == types[i] && valid_field(fields[i]) && field_text(fields[i]) == tokens[i] by {
        lemma_field_write_read(types[i], tokens[i], fields[i]);
    }
    assert(seq![parts[0]] + field_texts(fields) =~= parts);
    lemma_fields_text_join(parts[0], fields);
    lemma_join_split(s, COMMA);
}

/// A valid body has a text, and that text stands for the body.
pub proof fn lemma_message_read_write(m: MessageView)
    requires
        valid_message(m),
    ensures
        message_text(m) is Ok,
        message_of_text(message_text(m)->Ok_0) == Ok::<MessageView, DecodeError>(m),
{
    let name = kind_name(m.kind);
    let types = schema(m.kind);
    lemma_no_mismatch(types, m.fields);
    lemma_body_read_write(name, types, m.fields);
}

/// The body that a text stands for is valid.
pub proof fn lemma_message_valid(s: Seq<u8>)
    requires
        message_of_text(s) is Ok,
    ensures
        valid_message(message_of_text(s)->Ok_0),
{
    let kind = message_of_text(s)->Ok_0.kind;
    lemma_body_write_read(s, schema(kind));
}

/// A text that stands for a body is the text of that body.
pub proof fn lemma_message_write_read(s: Seq<u8>)
    requires
        message_of_text(s) is Ok,
    ensures
        message_text(message_of_text(s)->Ok_0) == Ok::<Seq<u8>, EncodeError>(s),
{
    let m = message_of_text(s)->Ok_0;
    lemma_body_write_read(s, schema(m.kind));
    lemma_no_mismatch(schema(m.kind), m.fields);
}

/// The sentences that `new_gga` and its like make are valid.
pub proof fn lemma_default_valid(kind: SentenceKind)
    ensures
        valid_message(MessageView { kind, fields: default_fields(kind) }),
{
}

} // verus!
