//! Laws of the encoding, stated over the token-stream functions and proved
//! once and for all: what struct fields with optionals contribute, how
//! compounds are terminated, and what may differ between the wire variants.

use vstd::prelude::*;

use crate::model::{ValueModel, Variant, TAG_END};
use crate::ser::{field_step, tag_tok, toks_fields, toks_value, unwrap_field};
use crate::model::probe_result;
use crate::tokens::{lemma_render_concat, lemma_render_one, render, render_token, Token};

verus! {

/// Removing a struct field that holds an absent optional changes nothing:
/// such a field contributes no bytes — no tag, no name, no payload — so
/// the struct encodes exactly as the same struct with the field removed.
pub proof fn lemma_absent_optional_field_omitted(
    name: Seq<char>,
    fields: Seq<(Seq<char>, ValueModel)>,
    i: int,
    rw: bool,
)
    requires
        0 <= i < fields.len(),
        fields[i].1 is OptAbsent,
    ensures
        toks_value(ValueModel::Struct(name, fields), rw) == toks_value(
            ValueModel::Struct(name, fields.remove(i)),
            rw,
        ),
{
    lemma_fields_skip_absent(fields, i);
}

proof fn lemma_fields_skip_absent(fields: Seq<(Seq<char>, ValueModel)>, i: int)
    requires
        0 <= i < fields.len(),
        fields[i].1 is OptAbsent,
    ensures
        toks_fields(fields) == toks_fields(fields.remove(i)),
    decreases fields.len(),
{
    let tail = fields.subrange(1, fields.len() as int);
    if i == 0 {
        assert(fields.remove(0) =~= tail);
        assert(field_step(fields[0].0, fields[0].1) == Option::Some(Seq::<Token>::empty()));
        match toks_fields(tail) {
            Option::None => {},
            Option::Some(rest) => {
                assert(Seq::<Token>::empty() + rest =~= rest);
            },
        }
    } else {
        lemma_fields_skip_absent(tail, i - 1);
        assert(fields.remove(i)[0] == fields[0]);
        assert(fields.remove(i).subrange(1, fields.remove(i).len() as int) =~= tail.remove(i - 1));
    }
}

/// A struct field holding a present optional is laid out exactly as if the
/// field held the wrapped value itself: same tag, same name, same payload.
/// The wrapped value must itself be something other than an optional.
pub proof fn lemma_present_optional_field_transparent(
    name: Seq<char>,
    fields: Seq<(Seq<char>, ValueModel)>,
    i: int,
    x: ValueModel,
    rw: bool,
)
    requires
        0 <= i < fields.len(),
        fields[i].1 matches ValueModel::OptPresent(b) && *b == x,
        !(x is OptAbsent),
        !(x is OptPresent),
    ensures
        toks_value(ValueModel::Struct(name, fields), rw) == toks_value(
            ValueModel::Struct(name, fields.update(i, (fields[i].0, x))),
            rw,
        ),
{
    lemma_fields_unwrap_present(fields, i, x);
    assert(fields.update(i, (fields[i].0, x)).len() == fields.len());
}

proof fn lemma_fields_unwrap_present(fields: Seq<(Seq<char>, ValueModel)>, i: int, x: ValueModel)
    requires
        0 <= i < fields.len(),
        fields[i].1 matches ValueModel::OptPresent(b) && *b == x,
        !(x is OptAbsent),
        !(x is OptPresent),
    ensures
        toks_fields(fields) == toks_fields(fields.update(i, (fields[i].0, x))),
    decreases fields.len(),
{
    let swapped = fields.update(i, (fields[i].0, x));
    let tail = fields.subrange(1, fields.len() as int);
    if i == 0 {
        assert(probe_result(fields[0].1) == probe_result(x));
        assert(unwrap_field(fields[0].1) == x);
        assert(unwrap_field(x) == x);
        assert(field_step(fields[0].0, fields[0].1) == field_step(swapped[0].0, swapped[0].1));
        assert(swapped.subrange(1, swapped.len() as int) =~= tail);
    } else {
        lemma_fields_unwrap_present(tail, i - 1, x);
        assert(swapped[0] == fields[0]);
        assert(swapped.subrange(1, swapped.len() as int) =~= tail.update(i - 1, (tail[i - 1].0, x)));
    }
}

/// Every compound payload — a map or a struct, at the document root or at
/// any nesting depth — closes with exactly one `End` byte: its rendering
/// under every variant is non-empty and its last byte is the `End` tag.
pub proof fn lemma_compound_ends_with_end(v: ValueModel, rw: bool, var: Variant)
    requires
        v is Compound || v is Struct,
        toks_value(v, rw) is Some,
    ensures
        render(toks_value(v, rw)->Some_0, var).len() >= 1,
        render(toks_value(v, rw)->Some_0, var).last() == TAG_END,
{
    let ts = toks_value(v, rw)->Some_0;
    match v {
        ValueModel::Compound(en) => {
            let body = crate::ser::toks_entries(en)->Some_0;
            let pre = if !rw {
                crate::ser::header_toks(Seq::<char>::empty())
            } else {
                Seq::<Token>::empty()
            };
            assert(ts == pre + body + seq![tag_tok(TAG_END)]);
            lemma_render_concat(pre + body, seq![tag_tok(TAG_END)], var);
            lemma_render_one(tag_tok(TAG_END), var);
            assert(render(ts, var) == render(pre + body, var) + seq![TAG_END]);
        },
        ValueModel::Struct(name, fs) => {
            let body = toks_fields(fs)->Some_0;
            let pre = if !rw {
                crate::ser::header_toks(name)
            } else {
                Seq::<Token>::empty()
            };
            assert(ts == pre + body + seq![tag_tok(TAG_END)]);
            lemma_render_concat(pre + body, seq![tag_tok(TAG_END)], var);
            lemma_render_one(tag_tok(TAG_END), var);
            assert(render(ts, var) == render(pre + body, var) + seq![TAG_END]);
        },
        _ => {},
    }
}

/// What two variants may lay out differently is confined to the rule-table
/// regions. One value has one token stream, shared by all three variants —
/// `toks_value` does not depend on the variant at all, and the encoder's
/// contract says each variant's output is that stream's rendering — and a
/// structural token (a tag, a name, string or blob payload bytes, an
/// 8-bit scalar, an `End` mark) renders to identical bytes under every
/// variant.
pub proof fn lemma_structural_bytes_shared(v: ValueModel, rw: bool, v1: Variant, v2: Variant)
    requires
        toks_value(v, rw) is Some,
    ensures
        forall|k: int|
            (0 <= k < toks_value(v, rw)->Some_0.len() && (toks_value(v, rw)->Some_0[k] matches
            Token::Fixed(_))) ==> #[trigger] render_token(toks_value(v, rw)->Some_0[k], v1)
                == render_token(toks_value(v, rw)->Some_0[k], v2),
{
}

} // verus!

