//! The laws of the format: what a reader gets back from what a writer put
//! down. Escaping's own inverse law lives in [`crate::escape`]; here stand
//! the round trips through the scanner and the readers, and the omission
//! law for absent optional fields.

use vstd::prelude::*;

use crate::de::scan::{lemma_scan_of_escape_bytes, lemma_scan_of_plain, scan_token};
use crate::de::{
    clamp_step, decode_element_spec, decode_field_spec, decode_params_spec, decode_root_spec,
    decode_struct_spec, decode_tuple_spec, find_record, read_record_spec, scan_entries,
    scan_params,
};
use crate::error::DecodeError;
use crate::escape::{escape_bytes, B_COLON, B_HASH, B_NL, B_SEMI};
use crate::record::{indent_unit, record_close, tag_bytes};
use crate::value::{
    content_escaped, content_of, decode_content, kind_of, lemma_decode_content_of,
    lemma_raw_content_plain, scalar_wf, wire_of, ScalarKind, ScalarValue,
};
use vstd::utf8::valid_utf8;

verus! {

/// One scalar standing as an in-line parameter: `:` and its wire bytes.
pub open spec fn scalar_param(v: ScalarValue) -> Seq<u8> {
    seq![B_COLON] + wire_of(v)
}

/// A run of scalars as successive parameters on one record.
pub open spec fn params_wire(vs: Seq<ScalarValue>) -> Seq<u8>
    decreases vs.len(),
{
    if vs.len() == 0 {
        Seq::empty()
    } else {
        scalar_param(vs[0]) + params_wire(vs.drop_first())
    }
}

/// One in-line element record carrying one scalar.
pub open spec fn element_record(v: ScalarValue) -> Seq<u8> {
    scalar_param(v) + record_close()
}

/// A tuple of scalars as one element run with a single terminator.
pub open spec fn tuple_record(vs: Seq<ScalarValue>) -> Seq<u8> {
    params_wire(vs) + record_close()
}

/// A bare scalar at the document root.
pub open spec fn root_record(v: ScalarValue) -> Seq<u8> {
    seq![B_HASH] + wire_of(v) + record_close()
}

/// A struct field's value: absent, or one scalar.
pub enum FieldValue {
    Absent,
    Present(ScalarValue),
}

/// What one field contributes to a struct's encoding: nothing at all when
/// it is absent, one record when it is present.
pub open spec fn field_record(name: Seq<u8>, fv: FieldValue) -> Seq<u8> {
    match fv {
        FieldValue::Absent => Seq::empty(),
        FieldValue::Present(v) => tag_bytes(name) + scalar_param(v) + record_close(),
    }
}

/// A struct's whole encoding: its fields' records in order.
pub open spec fn struct_records(fields: Seq<(Seq<u8>, FieldValue)>) -> Seq<u8>
    decreases fields.len(),
{
    if fields.len() == 0 {
        Seq::empty()
    } else {
        field_record(fields[0].0, fields[0].1) + struct_records(fields.drop_first())
    }
}

/// A struct's fields are well formed when every present value is and
/// every name is UTF-8.
pub open spec fn fields_wf(fields: Seq<(Seq<u8>, FieldValue)>) -> bool {
    forall|i: int|
        0 <= i < fields.len() ==> valid_utf8((#[trigger] fields[i]).0) && match fields[i].1 {
            FieldValue::Absent => true,
            FieldValue::Present(v) => scalar_wf(v),
        }
}

/// The records a reader finds in a struct's encoding: one per present
/// field, carrying the field's name and its single parameter token.
pub open spec fn present_records(fields: Seq<(Seq<u8>, FieldValue)>) -> Seq<
    (Seq<u8>, Seq<Seq<u8>>),
>
    decreases fields.len(),
{
    if fields.len() == 0 {
        Seq::empty()
    } else {
        match fields[0].1 {
            FieldValue::Absent => present_records(fields.drop_first()),
            FieldValue::Present(v) => seq![(fields[0].0, seq![content_of(v)])] + present_records(
                fields.drop_first(),
            ),
        }
    }
}

/// One map entry line: the indentation, the escaped key, the value as a
/// parameter, and the terminator.
pub open spec fn entry_line(key: Seq<u8>, v: ScalarValue) -> Seq<u8> {
    indent_unit() + escape_bytes(key) + scalar_param(v) + record_close()
}

/// The lines of a map's entries in order.
pub open spec fn entry_lines(entries: Seq<(Seq<u8>, ScalarValue)>) -> Seq<u8>
    decreases entries.len(),
{
    if entries.len() == 0 {
        Seq::empty()
    } else {
        entry_line(entries[0].0, entries[0].1) + entry_lines(entries.drop_first())
    }
}

/// A map as an in-line element: the announcement, the entry lines, and a
/// bare terminator only when there is no entry.
pub open spec fn map_record(entries: Seq<(Seq<u8>, ScalarValue)>) -> Seq<u8> {
    seq![B_COLON, B_NL] + entry_lines(entries) + if entries.len() == 0 {
        record_close()
    } else {
        Seq::empty()
    }
}

/// A map's entries are well formed when every key is UTF-8 and every
/// value is well formed.
pub open spec fn entries_wf(entries: Seq<(Seq<u8>, ScalarValue)>) -> bool {
    forall|i: int|
        0 <= i < entries.len() ==> valid_utf8((#[trigger] entries[i]).0) && scalar_wf(
            entries[i].1,
        )
}

/// The tokens a reader finds in a map's entry lines.
pub open spec fn entry_tokens(entries: Seq<(Seq<u8>, ScalarValue)>) -> Seq<(Seq<u8>, Seq<u8>)> {
    entries.map_values(|e: (Seq<u8>, ScalarValue)| (e.0, content_of(e.1)))
}

/// The content tokens of a run of scalars.
pub open spec fn contents_of(vs: Seq<ScalarValue>) -> Seq<Seq<u8>> {
    vs.map_values(|v: ScalarValue| content_of(v))
}

/// The declared kinds of a run of scalars.
pub open spec fn kinds_of(vs: Seq<ScalarValue>) -> Seq<ScalarKind> {
    vs.map_values(|v: ScalarValue| kind_of(v))
}

/// A run of scalars is well formed when each one is.
pub open spec fn scalars_wf(vs: Seq<ScalarValue>) -> bool {
    forall|i: int| 0 <= i < vs.len() ==> scalar_wf(#[trigger] vs[i])
}

/// What an element writer's contract promises for a raw-content scalar is
/// exactly the element record of that scalar.
pub proof fn lemma_element_record_raw(v: ScalarValue)
    requires
        !content_escaped(v),
    ensures
        crate::record::raw_param_bytes(content_of(v)) + record_close() == element_record(v),
{
    assert(crate::record::raw_param_bytes(content_of(v)) + record_close() =~= element_record(v));
}

/// What an element writer's contract promises for an escaped-content
/// scalar is exactly the element record of that scalar.
pub proof fn lemma_element_record_escaped(v: ScalarValue)
    requires
        content_escaped(v),
    ensures
        crate::record::param_bytes(content_of(v)) + record_close() == element_record(v),
{
    assert(crate::record::param_bytes(content_of(v)) + record_close() =~= element_record(v));
}

/// What the root writer's contract promises for a raw-content scalar is
/// exactly the root record of that scalar.
pub proof fn lemma_root_record_raw(v: ScalarValue)
    requires
        !content_escaped(v),
    ensures
        crate::ser::root_raw_record(content_of(v)) == root_record(v),
{
    assert(crate::ser::root_raw_record(content_of(v)) =~= root_record(v));
}

/// What the root writer's contract promises for an escaped-content scalar
/// is exactly the root record of that scalar.
pub proof fn lemma_root_record_escaped(v: ScalarValue)
    requires
        content_escaped(v),
    ensures
        crate::ser::root_escaped_record(content_of(v)) == root_record(v),
{
    assert(crate::ser::root_escaped_record(content_of(v)) =~= root_record(v));
}

/// What the struct writer's contract promises for a raw-content field is
/// exactly the field's record.
pub proof fn lemma_field_record_raw(name: Seq<u8>, v: ScalarValue)
    requires
        !content_escaped(v),
    ensures
        crate::ser::structure::field_raw_record(name, content_of(v)) == field_record(
            name,
            FieldValue::Present(v),
        ),
{
    assert(crate::ser::structure::field_raw_record(name, content_of(v)) =~= field_record(
        name,
        FieldValue::Present(v),
    ));
}

/// What the struct writer's contract promises for an escaped-content field
/// is exactly the field's record.
pub proof fn lemma_field_record_escaped(name: Seq<u8>, v: ScalarValue)
    requires
        content_escaped(v),
    ensures
        crate::ser::structure::field_escaped_record(name, content_of(v)) == field_record(
            name,
            FieldValue::Present(v),
        ),
{
    assert(crate::ser::structure::field_escaped_record(name, content_of(v)) =~= field_record(
        name,
        FieldValue::Present(v),
    ));
}

/// What the map writer's contract promises for a raw-content entry is
/// exactly the entry's line.
pub proof fn lemma_entry_line_raw(key: Seq<u8>, v: ScalarValue)
    requires
        !content_escaped(v),
    ensures
        crate::ser::map::entry_raw_record(key, content_of(v)) == entry_line(key, v),
{
    assert(crate::ser::map::entry_raw_record(key, content_of(v)) =~= entry_line(key, v));
}

/// What the map writer's contract promises for an escaped-content entry is
/// exactly the entry's line.
pub proof fn lemma_entry_line_escaped(key: Seq<u8>, v: ScalarValue)
    requires
        content_escaped(v),
    ensures
        crate::ser::map::entry_escaped_record(key, content_of(v)) == entry_line(key, v),
{
    assert(crate::ser::map::entry_escaped_record(key, content_of(v)) =~= entry_line(key, v));
}

/// The scanner reads one scalar's wire bytes back as its content.
pub proof fn lemma_scan_scalar_wire(v: ScalarValue, tail: Seq<u8>)
    requires
        scalar_wf(v),
        tail.len() > 0,
        tail[0] == B_COLON || tail[0] == B_SEMI,
    ensures
        scan_token(wire_of(v) + tail) == Ok::<(Seq<u8>, int), DecodeError>(
            (content_of(v), wire_of(v).len() as int),
        ),
{
    if content_escaped(v) {
        assert(valid_utf8(content_of(v))) by {
            broadcast use vstd::utf8::encode_utf8_valid_utf8;

            match v {
                ScalarValue::Char(_) => {},
                ScalarValue::Str(_) => {},
                ScalarValue::Bytes(_) => {},
                _ => {},
            }
        }
        lemma_scan_of_escape_bytes(content_of(v), tail);
    } else {
        lemma_raw_content_plain(v);
        lemma_scan_of_plain(content_of(v), tail);
    }
}

/// The reader of a parameter run inverts the writer of one: it returns
/// the scalars' content tokens and consumes the run and its terminator.
pub proof fn lemma_scan_params_wire(vs: Seq<ScalarValue>, rest: Seq<u8>)
    requires
        scalars_wf(vs),
    ensures
        scan_params(params_wire(vs) + record_close() + rest) == Ok::<
            (Seq<Seq<u8>>, int),
            DecodeError,
        >((contents_of(vs), params_wire(vs).len() as int + 2)),
    decreases vs.len(),
{
    let s = params_wire(vs) + record_close() + rest;
    if vs.len() == 0 {
        assert(s =~= record_close() + rest);
        assert(s[0] == B_SEMI && s[1] == B_NL && s.len() >= 2);
        assert(contents_of(vs) =~= Seq::<Seq<u8>>::empty());
    } else {
        let v = vs[0];
        let vs2 = vs.drop_first();
        assert(scalar_wf(v));
        assert(scalars_wf(vs2)) by {
            assert(forall|i: int| 0 <= i < vs2.len() ==> vs2[i] == #[trigger] vs[i + 1]);
        }
        let tail2 = params_wire(vs2) + record_close() + rest;
        assert(tail2.len() > 0 && (tail2[0] == B_COLON || tail2[0] == B_SEMI)) by {
            if vs2.len() == 0 {
                assert(tail2 =~= record_close() + rest);
                assert(tail2[0] == B_SEMI);
            } else {
                assert(params_wire(vs2)[0] == B_COLON);
                assert(tail2[0] == B_COLON);
            }
        }
        assert(s =~= seq![B_COLON] + (wire_of(v) + tail2));
        assert(s[0] == B_COLON);
        assert(s.skip(1) =~= wire_of(v) + tail2);
        lemma_scan_scalar_wire(v, tail2);
        let wl = wire_of(v).len() as int;
        let step = 1 + wl;
        assert(clamp_step(step, s.len() as int) == step);
        assert(s.skip(step) =~= tail2);
        lemma_scan_params_wire(vs2, rest);
        assert(seq![content_of(v)] + contents_of(vs2) =~= contents_of(vs));
        assert(params_wire(vs).len() == step + params_wire(vs2).len());
    }
}

/// Round trip for a bare scalar at the document root: reading the record
/// a root writer puts down, under the scalar's own kind, gives the scalar
/// back.
pub proof fn lemma_root_round_trip(v: ScalarValue)
    requires
        scalar_wf(v),
    ensures
        decode_root_spec(kind_of(v), root_record(v)) == Ok::<ScalarValue, DecodeError>(v),
{
    let s = root_record(v);
    let tail = record_close();
    assert(s[0] == B_HASH);
    assert(s.skip(1) =~= wire_of(v) + tail);
    lemma_scan_scalar_wire(v, tail);
    let wl = wire_of(v).len() as int;
    assert(s.skip(1 + wl) =~= record_close());
    assert(record_close()[0] == B_SEMI && record_close()[1] == B_NL);
    assert(scan_params(s.skip(1 + wl)) == Ok::<(Seq<Seq<u8>>, int), DecodeError>(
        (Seq::empty(), 2),
    ));
    lemma_decode_content_of(v);
}

/// Round trip for one in-line element: reading the record an element
/// writer puts down gives the scalar back.
pub proof fn lemma_element_round_trip(v: ScalarValue)
    requires
        scalar_wf(v),
    ensures
        decode_element_spec(kind_of(v), element_record(v)) == Ok::<ScalarValue, DecodeError>(v),
{
    let vs = seq![v];
    assert(scalars_wf(vs));
    assert(params_wire(vs) =~= scalar_param(v)) by {
        assert(vs.drop_first() =~= Seq::<ScalarValue>::empty());
        assert(params_wire(Seq::<ScalarValue>::empty()) =~= Seq::<u8>::empty());
        assert(scalar_param(v) + Seq::<u8>::empty() =~= scalar_param(v));
    }
    assert(element_record(v) =~= params_wire(vs) + record_close() + Seq::<u8>::empty());
    lemma_scan_params_wire(vs, Seq::empty());
    assert(contents_of(vs)[0] == content_of(v));
    assert(contents_of(vs).len() == 1);
    lemma_decode_content_of(v);
}

/// The tokens of a run decode back to the run, each under its own kind.
pub proof fn lemma_decode_params_of(vs: Seq<ScalarValue>)
    ensures
        decode_params_spec(kinds_of(vs), contents_of(vs)) == Ok::<Seq<ScalarValue>, DecodeError>(
            vs,
        ),
    decreases vs.len(),
{
    if vs.len() == 0 {
        assert(kinds_of(vs).len() == 0);
        assert(contents_of(vs) =~= Seq::<Seq<u8>>::empty());
        assert(vs =~= Seq::<ScalarValue>::empty());
    } else {
        let v = vs[0];
        lemma_decode_content_of(v);
        assert(kinds_of(vs)[0] == kind_of(v));
        assert(contents_of(vs)[0] == content_of(v));
        assert(kinds_of(vs).drop_first() =~= kinds_of(vs.drop_first()));
        assert(contents_of(vs).drop_first() =~= contents_of(vs.drop_first()));
        lemma_decode_params_of(vs.drop_first());
        assert(seq![v] + vs.drop_first() =~= vs);
    }
}

/// Round trip for a tuple of scalars written as one element run: reading
/// the record back under the declared kinds gives the same scalars in the
/// same order.
pub proof fn lemma_tuple_round_trip(vs: Seq<ScalarValue>)
    requires
        scalars_wf(vs),
    ensures
        decode_tuple_spec(kinds_of(vs), tuple_record(vs)) == Ok::<Seq<ScalarValue>, DecodeError>(
            vs,
        ),
{
    assert(tuple_record(vs) =~= params_wire(vs) + record_close() + Seq::<u8>::empty());
    lemma_scan_params_wire(vs, Seq::empty());
    assert(contents_of(vs).len() == kinds_of(vs).len());
    lemma_decode_params_of(vs);
}

/// The reader of a record run inverts the writer of a struct: it finds
/// exactly one record per present field, in order, and none for an absent
/// field.
pub proof fn lemma_struct_records_decode(fields: Seq<(Seq<u8>, FieldValue)>)
    requires
        fields_wf(fields),
    ensures
        decode_struct_spec(struct_records(fields)) == Ok::<
            Seq<(Seq<u8>, Seq<Seq<u8>>)>,
            DecodeError,
        >(present_records(fields)),
    decreases fields.len(),
{
    let s = struct_records(fields);
    if fields.len() == 0 {
        assert(s.len() == 0);
        assert(present_records(fields) =~= Seq::<(Seq<u8>, Seq<Seq<u8>>)>::empty());
    } else {
        let name = fields[0].0;
        let fv = fields[0].1;
        let rest = fields.drop_first();
        assert(fields_wf(rest)) by {
            assert(forall|i: int| 0 <= i < rest.len() ==> rest[i] == #[trigger] fields[i + 1]);
        }
        assert(valid_utf8(name));
        lemma_struct_records_decode(rest);
        match fv {
            FieldValue::Absent => {
                assert(s =~= struct_records(rest));
            },
            FieldValue::Present(v) => {
                assert(scalar_wf(v));
                let rest_bytes = struct_records(rest);
                assert(s =~= tag_bytes(name) + scalar_param(v) + record_close() + rest_bytes);
                assert(s.len() > 0 && s[0] == B_HASH) by {
                    assert(tag_bytes(name)[0] == B_HASH);
                }
                let tag_tail = scalar_param(v) + record_close() + rest_bytes;
                assert(tag_tail[0] == B_COLON) by {
                    assert(scalar_param(v)[0] == B_COLON);
                }
                assert(s.skip(1) =~= escape_bytes(name) + tag_tail);
                lemma_scan_of_escape_bytes(name, tag_tail);
                let el = escape_bytes(name).len() as int;
                let vs = seq![v];
                assert(scalars_wf(vs));
                assert(params_wire(vs) =~= scalar_param(v)) by {
                    assert(vs.drop_first() =~= Seq::<ScalarValue>::empty());
                    assert(params_wire(Seq::<ScalarValue>::empty()) =~= Seq::<u8>::empty());
                    assert(scalar_param(v) + Seq::<u8>::empty() =~= scalar_param(v));
                }
                assert(s.skip(1 + el) =~= params_wire(vs) + record_close() + rest_bytes);
                lemma_scan_params_wire(vs, rest_bytes);
                let consumed = 1 + el + (params_wire(vs).len() + 2);
                assert(read_record_spec(s) == Ok::<((Seq<u8>, Seq<Seq<u8>>), int), DecodeError>(
                    ((name, contents_of(vs)), consumed),
                ));
                assert(contents_of(vs) =~= seq![content_of(v)]);
                assert(1 <= consumed <= s.len());
                assert(clamp_step(consumed, s.len() as int) == consumed);
                assert(s.skip(consumed) =~= rest_bytes);
                assert(seq![(name, seq![content_of(v)])] + present_records(rest)
                    =~= present_records(fields));
            },
        }
    }
}

/// The omission law, on the bytes: an absent optional field contributes
/// no line at all, so a struct writes exactly the same stream with the
/// field as without it.
pub proof fn lemma_omitted_field_writes_nothing(fields: Seq<(Seq<u8>, FieldValue)>, j: int)
    requires
        0 <= j < fields.len(),
        fields[j].1 is Absent,
    ensures
        struct_records(fields) == struct_records(
            fields.subrange(0, j) + fields.subrange(j + 1, fields.len() as int),
        ),
    decreases fields.len(),
{
    if j == 0 {
        assert(field_record(fields[0].0, fields[0].1) =~= Seq::<u8>::empty());
        assert(struct_records(fields) =~= struct_records(fields.drop_first()));
        assert(fields.subrange(0, 0) + fields.subrange(1, fields.len() as int)
            =~= fields.drop_first());
    } else {
        lemma_omitted_field_writes_nothing(fields.drop_first(), j - 1);
        let trimmed = fields.subrange(0, j) + fields.subrange(j + 1, fields.len() as int);
        assert(trimmed.len() > 0 && trimmed[0] == fields[0]);
        assert(trimmed.drop_first() =~= fields.drop_first().subrange(0, j - 1)
            + fields.drop_first().subrange(j, fields.len() - 1));
        assert(struct_records(fields) == field_record(fields[0].0, fields[0].1)
            + struct_records(fields.drop_first()));
        assert(struct_records(trimmed) == field_record(trimmed[0].0, trimmed[0].1)
            + struct_records(trimmed.drop_first()));
    }
}

/// No reader finds a record for a name that only absent fields carry.
proof fn lemma_find_absent_none(fields: Seq<(Seq<u8>, FieldValue)>, name: Seq<u8>)
    requires
        forall|i: int|
            0 <= i < fields.len() ==> ((#[trigger] fields[i]).0 == name ==> fields[i].1
                is Absent),
    ensures
        find_record(present_records(fields), name) is None,
    decreases fields.len(),
{
    if fields.len() > 0 {
        let rest = fields.drop_first();
        assert(forall|i: int| 0 <= i < rest.len() ==> rest[i] == #[trigger] fields[i + 1]);
        lemma_find_absent_none(rest, name);
        match fields[0].1 {
            FieldValue::Absent => {},
            FieldValue::Present(v) => {
                assert(fields[0].0 != name);
                let pr = present_records(fields);
                assert(pr[0] == (fields[0].0, seq![content_of(v)]));
                assert(pr.drop_first() =~= present_records(rest));
            },
        }
    }
}

/// The omission law, through the reader: a field that every carrier of
/// its name leaves absent comes back as absent, not as an empty value,
/// whatever kind is asked for.
pub proof fn lemma_omission_law(
    fields: Seq<(Seq<u8>, FieldValue)>,
    name: Seq<u8>,
    kind: ScalarKind,
)
    requires
        fields_wf(fields),
        forall|i: int|
            0 <= i < fields.len() ==> ((#[trigger] fields[i]).0 == name ==> fields[i].1
                is Absent),
    ensures
        decode_field_spec(struct_records(fields), name, kind) == Ok::<
            Option<ScalarValue>,
            DecodeError,
        >(None),
{
    lemma_struct_records_decode(fields);
    lemma_find_absent_none(fields, name);
}

/// The first present field of a name is the record a reader finds.
proof fn lemma_find_present(fields: Seq<(Seq<u8>, FieldValue)>, j: int)
    requires
        0 <= j < fields.len(),
        fields[j].1 is Present,
        forall|i: int| 0 <= i < j ==> (#[trigger] fields[i]).0 != fields[j].0,
    ensures
        find_record(present_records(fields), fields[j].0) == Some(
            (fields[j].0, seq![content_of(fields[j].1->Present_0)]),
        ),
    decreases j,
{
    let name = fields[j].0;
    let rest = fields.drop_first();
    assert(forall|i: int| 0 <= i < rest.len() ==> rest[i] == #[trigger] fields[i + 1]);
    if j == 0 {
        match fields[0].1 {
            FieldValue::Absent => {},
            FieldValue::Present(v) => {
                let pr = present_records(fields);
                assert(pr[0] == (name, seq![content_of(v)]));
            },
        }
    } else {
        lemma_find_present(rest, j - 1);
        assert(rest[j - 1] == fields[j]);
        match fields[0].1 {
            FieldValue::Absent => {},
            FieldValue::Present(v) => {
                let pr = present_records(fields);
                assert(pr[0] == (fields[0].0, seq![content_of(v)]));
                assert(fields[0].0 != name);
                assert(pr.drop_first() =~= present_records(rest));
            },
        }
    }
}

/// Round trip for a struct field: a present field whose name no earlier
/// field shares comes back as the same scalar when read under its own
/// kind.
pub proof fn lemma_field_round_trip(fields: Seq<(Seq<u8>, FieldValue)>, j: int, v: ScalarValue)
    requires
        fields_wf(fields),
        0 <= j < fields.len(),
        fields[j].1 == FieldValue::Present(v),
        forall|i: int| 0 <= i < j ==> (#[trigger] fields[i]).0 != fields[j].0,
    ensures
        decode_field_spec(struct_records(fields), fields[j].0, kind_of(v)) == Ok::<
            Option<ScalarValue>,
            DecodeError,
        >(Some(v)),
{
    lemma_struct_records_decode(fields);
    lemma_find_present(fields, j);
    lemma_decode_content_of(v);
}

/// The reader of map entries inverts the writer of one: each entry line
/// comes back as its key and its value's content token.
pub proof fn lemma_scan_entry_lines(entries: Seq<(Seq<u8>, ScalarValue)>)
    requires
        entries_wf(entries),
    ensures
        scan_entries(entry_lines(entries)) == Ok::<(Seq<(Seq<u8>, Seq<u8>)>, int), DecodeError>(
            (entry_tokens(entries), entry_lines(entries).len() as int),
        ),
    decreases entries.len(),
{
    let s = entry_lines(entries);
    if entries.len() == 0 {
        assert(s.len() == 0);
        assert(entry_tokens(entries) =~= Seq::<(Seq<u8>, Seq<u8>)>::empty());
    } else {
        let key = entries[0].0;
        let v = entries[0].1;
        let rest = entries.drop_first();
        assert(entries_wf(rest)) by {
            assert(forall|i: int| 0 <= i < rest.len() ==> rest[i] == #[trigger] entries[i + 1]);
        }
        assert(valid_utf8(key) && scalar_wf(v));
        lemma_scan_entry_lines(rest);
        let rest_bytes = entry_lines(rest);
        assert(s =~= indent_unit() + escape_bytes(key) + scalar_param(v) + record_close()
            + rest_bytes);
        assert(s[0] == crate::escape::B_SPACE && s[1] == crate::escape::B_SPACE && s[2]
            == crate::escape::B_SPACE && s.len() >= 3);
        let key_tail = scalar_param(v) + record_close() + rest_bytes;
        assert(key_tail[0] == B_COLON) by {
            assert(scalar_param(v)[0] == B_COLON);
        }
        assert(s.skip(3) =~= escape_bytes(key) + key_tail);
        lemma_scan_of_escape_bytes(key, key_tail);
        let el = escape_bytes(key).len() as int;
        let kd = 3 + el;
        assert(s[kd] == B_COLON);
        let val_tail = record_close() + rest_bytes;
        assert(val_tail[0] == B_SEMI);
        assert(s.skip(kd + 1) =~= wire_of(v) + val_tail);
        lemma_scan_scalar_wire(v, val_tail);
        let wl = wire_of(v).len() as int;
        let vd = kd + 1 + wl;
        assert(s[vd] == B_SEMI);
        assert(vd + 1 < s.len() && s[vd + 1] == B_NL);
        assert(clamp_step(vd + 2, s.len() as int) == vd + 2);
        assert(s.skip(vd + 2) =~= rest_bytes);
        assert(seq![(key, content_of(v))] + entry_tokens(rest) =~= entry_tokens(entries));
        assert(s.len() == vd + 2 + rest_bytes.len());
    }
}

/// Round trip for a map written as an in-line element: after the two
/// announcement bytes, the reader finds exactly the entries that were
/// written, and an entry-less map closes with its bare terminator.
pub proof fn lemma_map_round_trip(entries: Seq<(Seq<u8>, ScalarValue)>)
    requires
        entries_wf(entries),
    ensures
        map_record(entries)[0] == B_COLON,
        map_record(entries)[1] == B_NL,
        scan_entries(map_record(entries).skip(2)) == Ok::<
            (Seq<(Seq<u8>, Seq<u8>)>, int),
            DecodeError,
        >((entry_tokens(entries), map_record(entries).len() - 2)),
{
    let s = map_record(entries);
    if entries.len() == 0 {
        assert(s =~= seq![B_COLON, B_NL] + record_close());
        assert(s.skip(2) =~= record_close());
        assert(record_close()[0] == B_SEMI && record_close()[1] == B_NL);
        assert(entry_tokens(entries) =~= Seq::<(Seq<u8>, Seq<u8>)>::empty());
    } else {
        assert(s =~= seq![B_COLON, B_NL] + entry_lines(entries));
        assert(s.skip(2) =~= entry_lines(entries));
        lemma_scan_entry_lines(entries);
    }
}

} // verus!
