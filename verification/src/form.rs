//! The record model shared by every form variant: the mathematical encoding
//! of each record, the parse functions that invert it, and the lemmas tying
//! the two directions together.
use vstd::prelude::*;

use crate::bytes::{
    lemma_u16_be_round_trip, lemma_u16_from_be_round_trip, lemma_u32_be_round_trip,
    lemma_u32_from_be_round_trip, spec_u16_be, spec_u16_from_be, spec_u32_be, spec_u32_from_be,
};
use crate::types_id::spec_global_id_bytes;
use crate::types_misc::{
    spec_form_type_byte, spec_form_type_of_byte, spec_lang_byte, spec_lang_of_byte, FormType,
    LangCode,
};
use crate::types_str::{
    lemma_parse_str_lrg_at_encoding, lemma_parse_str_sml_at_encoding, lemma_str_lrg_exact_at,
    lemma_str_sml_exact_at, spec_parse_str_lrg_at, spec_parse_str_sml_at, spec_str_lrg_bytes,
    spec_str_sml_bytes,
};
use crate::types_vectors::{spec_i32_as_u32, spec_u32_as_i32, spec_vec3_int_bytes};
use crate::bytes::push_u16_be;
use crate::ArchiveError;
use crate::types_id::FormID;
use crate::types_str::StrSml;

verus! {

// -----------------------------  models -----------------------------
/// The mathematical content of a STRING form.
#[verifier::ext_equal]
pub struct FormStringModel {
    pub form_id: u16,
    pub form_name: Seq<u16>,
    pub languages: Seq<LangCode>,
    pub strings: Seq<Seq<u16>>,
}

/// The mathematical content of a WORLD form.
#[verifier::ext_equal]
pub struct FormWorldModel {
    pub form_id: u16,
    pub form_name: Seq<u16>,
    pub world_name_id: (u8, u16),
    pub world_map: Seq<u16>,
    pub world_parts: Seq<(u8, u16)>,
    pub world_part_anchors: Seq<(i32, i32, i32)>,
}

/// The mathematical content of a REFGROUP form.
#[verifier::ext_equal]
pub struct FormRefGroupModel {
    pub form_id: u16,
    pub form_name: Seq<u16>,
    pub form_references: Seq<(u8, u16)>,
}

/// The mathematical content of any record the codec handles.
#[verifier::ext_equal]
pub enum FormModel {
    Str(FormStringModel),
    World(FormWorldModel),
    RefGroup(FormRefGroupModel),
}

/// The form identifier of a record model.
pub open spec fn spec_form_model_id(f: FormModel) -> u16 {
    match f {
        FormModel::Str(m) => m.form_id,
        FormModel::World(m) => m.form_id,
        FormModel::RefGroup(m) => m.form_id,
    }
}

/// The type tag of a record model.
pub open spec fn spec_form_model_type(f: FormModel) -> FormType {
    match f {
        FormModel::Str(_) => FormType::STRING,
        FormModel::World(_) => FormType::WORLD,
        FormModel::RefGroup(_) => FormType::REFGROUP,
    }
}

/// The record name of a record model.
pub open spec fn spec_form_model_name(f: FormModel) -> Seq<u16> {
    match f {
        FormModel::Str(m) => m.form_name,
        FormModel::World(m) => m.form_name,
        FormModel::RefGroup(m) => m.form_name,
    }
}

/// The counts of a record model fit their length prefixes.
pub open spec fn form_model_wf(f: FormModel) -> bool {
    match f {
        FormModel::Str(m) => {
            &&& m.form_name.len() <= 255
            &&& m.languages.len() == m.strings.len()
            &&& m.languages.len() <= 255
            &&& forall|i: int| 0 <= i < m.strings.len() ==> #[trigger] m.strings[i].len() <= 65535
        },
        FormModel::World(m) => {
            &&& m.form_name.len() <= 255
            &&& m.world_map.len() <= 255
            &&& m.world_parts.len() == m.world_part_anchors.len()
            &&& m.world_parts.len() <= 65535
        },
        FormModel::RefGroup(m) => {
            &&& m.form_name.len() <= 255
            &&& m.form_references.len() <= 255
        },
    }
}

// -----------------------------  encoders -----------------------------
/// The shared record prefix: form id, type tag, record name.
pub open spec fn spec_form_base_bytes(id: u16, tag: u8, name: Seq<u16>) -> Seq<u8> {
    spec_u16_be(id) + seq![tag] + spec_str_sml_bytes(name)
}

/// One byte per language code.
pub open spec fn spec_lang_list_bytes(ls: Seq<LangCode>) -> Seq<u8> {
    Seq::new(ls.len(), |i: int| spec_lang_byte(ls[i]))
}

/// The concatenated encodings of a list of large strings.
pub open spec fn spec_str_lrg_list_bytes(ss: Seq<Seq<u16>>) -> Seq<u8>
    decreases ss.len(),
{
    if ss.len() == 0 {
        Seq::empty()
    } else {
        spec_str_lrg_bytes(ss[0]) + spec_str_lrg_list_bytes(ss.drop_first())
    }
}

/// The concatenated three-byte encodings of a list of global identifiers.
pub open spec fn spec_gid_list_bytes(gs: Seq<(u8, u16)>) -> Seq<u8>
    decreases gs.len(),
{
    if gs.len() == 0 {
        Seq::empty()
    } else {
        spec_global_id_bytes(gs[0]) + spec_gid_list_bytes(gs.drop_first())
    }
}

/// The concatenated twelve-byte encodings of a list of integer vectors.
pub open spec fn spec_vec3_list_bytes(vs: Seq<(i32, i32, i32)>) -> Seq<u8>
    decreases vs.len(),
{
    if vs.len() == 0 {
        Seq::empty()
    } else {
        spec_vec3_int_bytes(vs[0]) + spec_vec3_list_bytes(vs.drop_first())
    }
}

/// The on-disk encoding of a record.
pub open spec fn spec_form_bytes(f: FormModel) -> Seq<u8> {
    match f {
        FormModel::Str(m) => spec_form_base_bytes(m.form_id, 0, m.form_name) + seq![
            m.languages.len() as u8,
        ] + spec_lang_list_bytes(m.languages) + spec_str_lrg_list_bytes(m.strings),
        FormModel::World(m) => spec_form_base_bytes(m.form_id, 1, m.form_name)
            + spec_global_id_bytes(m.world_name_id) + spec_str_sml_bytes(m.world_map)
            + spec_u16_be(m.world_parts.len() as u16) + spec_gid_list_bytes(m.world_parts)
            + spec_vec3_list_bytes(m.world_part_anchors),
        FormModel::RefGroup(m) => spec_form_base_bytes(m.form_id, 2, m.form_name) + seq![
            m.form_references.len() as u8,
        ] + spec_gid_list_bytes(m.form_references),
    }
}

// -----------------------------  parsers -----------------------------
/// `n` language codes read at `pos`; `None` when a byte is unknown.
pub open spec fn spec_parse_lang_list(b: Seq<u8>, pos: int, n: int) -> Option<Seq<LangCode>> {
    if pos < 0 || n < 0 || b.len() < pos + n {
        None
    } else if exists|i: int| 0 <= i < n && #[trigger] spec_lang_of_byte(b[pos + i]) is None {
        None
    } else {
        Some(Seq::new(n as nat, |i: int| spec_lang_of_byte(b[pos + i]).unwrap()))
    }
}

/// `n` large strings read one after another from `pos`, and the position
/// just past the last.
pub open spec fn spec_parse_str_lrg_list(b: Seq<u8>, pos: int, n: int) -> Option<
    (Seq<Seq<u16>>, int),
>
    decreases n,
{
    if n <= 0 {
        Some((Seq::empty(), pos))
    } else {
        match spec_parse_str_lrg_at(b, pos) {
            None => None,
            Some((s, end)) => match spec_parse_str_lrg_list(b, end, n - 1) {
                None => None,
                Some((ss, e2)) => Some((seq![s] + ss, e2)),
            },
        }
    }
}

/// `n` global identifiers read at `pos`.
pub open spec fn spec_parse_gid_list(b: Seq<u8>, pos: int, n: int) -> Option<Seq<(u8, u16)>> {
    if pos < 0 || n < 0 || b.len() < pos + 3 * n {
        None
    } else {
        Some(
            Seq::new(
                n as nat,
                |i: int| (b[pos + 3 * i], spec_u16_from_be(b[pos + 3 * i + 1], b[pos + 3 * i + 2])),
            ),
        )
    }
}

/// `n` integer vectors read at `pos`.
pub open spec fn spec_parse_vec3_list(b: Seq<u8>, pos: int, n: int) -> Option<
    Seq<(i32, i32, i32)>,
> {
    if pos < 0 || n < 0 || b.len() < pos + 12 * n {
        None
    } else {
        Some(
            Seq::new(
                n as nat,
                |i: int|
                    (
                        spec_u32_as_i32(
                            spec_u32_from_be(
                                b[pos + 12 * i],
                                b[pos + 12 * i + 1],
                                b[pos + 12 * i + 2],
                                b[pos + 12 * i + 3],
                            ),
                        ),
                        spec_u32_as_i32(
                            spec_u32_from_be(
                                b[pos + 12 * i + 4],
                                b[pos + 12 * i + 5],
                                b[pos + 12 * i + 6],
                                b[pos + 12 * i + 7],
                            ),
                        ),
                        spec_u32_as_i32(
                            spec_u32_from_be(
                                b[pos + 12 * i + 8],
                                b[pos + 12 * i + 9],
                                b[pos + 12 * i + 10],
                                b[pos + 12 * i + 11],
                            ),
                        ),
                    ),
            ),
        )
    }
}

/// A STRING record read at `pos`: prefix, language count, codes, strings.
pub open spec fn spec_parse_form_string(b: Seq<u8>, pos: int) -> Option<(FormModel, int)> {
    match spec_parse_str_sml_at(b, pos + 3) {
        None => None,
        Some((name, p1)) => if b.len() < p1 + 1 {
            None
        } else {
            let count = b[p1] as int;
            match spec_parse_lang_list(b, p1 + 1, count) {
                None => None,
                Some(langs) => match spec_parse_str_lrg_list(b, p1 + 1 + count, count) {
                    None => None,
                    Some((ss, end)) => Some(
                        (
                            FormModel::Str(
                                FormStringModel {
                                    form_id: spec_u16_from_be(b[pos], b[pos + 1]),
                                    form_name: name,
                                    languages: langs,
                                    strings: ss,
                                },
                            ),
                            end,
                        ),
                    ),
                },
            }
        },
    }
}

/// A WORLD record read at `pos`: prefix, world name id, map, part count,
/// parts, anchors.
pub open spec fn spec_parse_form_world(b: Seq<u8>, pos: int) -> Option<(FormModel, int)> {
    match spec_parse_str_sml_at(b, pos + 3) {
        None => None,
        Some((name, p1)) => if b.len() < p1 + 3 {
            None
        } else {
            let wnid = (b[p1], spec_u16_from_be(b[p1 + 1], b[p1 + 2]));
            match spec_parse_str_sml_at(b, p1 + 3) {
                None => None,
                Some((world_map, p2)) => if b.len() < p2 + 2 {
                    None
                } else {
                    let count = spec_u16_from_be(b[p2], b[p2 + 1]) as int;
                    match spec_parse_gid_list(b, p2 + 2, count) {
                        None => None,
                        Some(parts) => match spec_parse_vec3_list(b, p2 + 2 + 3 * count, count) {
                            None => None,
                            Some(anchors) => Some(
                                (
                                    FormModel::World(
                                        FormWorldModel {
                                            form_id: spec_u16_from_be(b[pos], b[pos + 1]),
                                            form_name: name,
                                            world_name_id: wnid,
                                            world_map,
                                            world_parts: parts,
                                            world_part_anchors: anchors,
                                        },
                                    ),
                                    p2 + 2 + 3 * count + 12 * count,
                                ),
                            ),
                        },
                    }
                },
            }
        },
    }
}

/// A REFGROUP record read at `pos`: prefix, reference count, references.
pub open spec fn spec_parse_form_refgroup(b: Seq<u8>, pos: int) -> Option<(FormModel, int)> {
    match spec_parse_str_sml_at(b, pos + 3) {
        None => None,
        Some((name, p1)) => if b.len() < p1 + 1 {
            None
        } else {
            let count = b[p1] as int;
            match spec_parse_gid_list(b, p1 + 1, count) {
                None => None,
                Some(refs) => Some(
                    (
                        FormModel::RefGroup(
                            FormRefGroupModel {
                                form_id: spec_u16_from_be(b[pos], b[pos + 1]),
                                form_name: name,
                                form_references: refs,
                            },
                        ),
                        p1 + 1 + 3 * count,
                    ),
                ),
            }
        },
    }
}

/// One record read at `pos`: the type tag picks the variant parser; an
/// unknown tag, or one the codec does not carry, fails the parse.
#[verifier::opaque]
pub open spec fn spec_parse_form_at(b: Seq<u8>, pos: int) -> Option<(FormModel, int)> {
    if pos < 0 || b.len() < pos + 3 {
        None
    } else {
        let tag = b[pos + 2];
        if tag == 0 {
            spec_parse_form_string(b, pos)
        } else if tag == 1 {
            spec_parse_form_world(b, pos)
        } else if tag == 2 {
            spec_parse_form_refgroup(b, pos)
        } else {
            None
        }
    }
}

/// One record read from the front of the buffer.
pub open spec fn spec_parse_form(b: Seq<u8>) -> Option<(FormModel, int)> {
    spec_parse_form_at(b, 0)
}

// -----------------------------  region lemmas -----------------------------
/// A region known to be a concatenation splits into its two parts.
pub proof fn lemma_region_split(b: Seq<u8>, p0: int, a: Seq<u8>, c: Seq<u8>, p2: int)
    requires
        0 <= p0,
        p2 <= b.len(),
        p2 == p0 + a.len() + c.len(),
        b.subrange(p0, p2) == a + c,
    ensures
        b.subrange(p0, p0 + a.len() as int) == a,
        b.subrange(p0 + a.len() as int, p2) == c,
{
    let al = a.len() as int;
    assert forall|i: int| 0 <= i < al implies b.subrange(p0, p0 + al)[i] == a[i] by {
        assert((a + c)[i] == a[i]);
        assert(b.subrange(p0, p0 + al)[i] == b[p0 + i]);
        assert(b[p0 + i] == b.subrange(p0, p2)[i]);
    }
    assert(b.subrange(p0, p0 + al) =~= a);
    assert forall|i: int| 0 <= i < c.len() implies b.subrange(p0 + al, p2)[i] == c[i] by {
        assert((a + c)[al + i] == c[i]);
        assert(b.subrange(p0 + al, p2)[i] == b[p0 + al + i]);
        assert(b[p0 + al + i] == b.subrange(p0, p2)[al + i]);
    }
    assert(b.subrange(p0 + al, p2) =~= c);
}

/// Two adjacent regions concatenate to the enclosing region.
pub proof fn lemma_concat_adjacent(b: Seq<u8>, p0: int, p1: int, p2: int)
    requires
        0 <= p0 <= p1 <= p2 <= b.len(),
    ensures
        b.subrange(p0, p1) + b.subrange(p1, p2) == b.subrange(p0, p2),
{
    let x = b.subrange(p0, p1);
    let y = b.subrange(p1, p2);
    assert forall|i: int| 0 <= i < p2 - p0 implies (x + y)[i] == b.subrange(p0, p2)[i] by {
        if i < p1 - p0 {
            assert((x + y)[i] == x[i]);
            assert(x[i] == b[p0 + i]);
        } else {
            assert((x + y)[i] == y[i - (p1 - p0)]);
            assert(y[i - (p1 - p0)] == b[p1 + (i - (p1 - p0))]);
        }
        assert(b.subrange(p0, p2)[i] == b[p0 + i]);
    }
    assert(x + y =~= b.subrange(p0, p2));
}

// -----------------------------  list lemmas -----------------------------
pub proof fn lemma_gid_list_bytes_len(gs: Seq<(u8, u16)>)
    ensures
        spec_gid_list_bytes(gs).len() == 3 * gs.len(),
    decreases gs.len(),
{
    if gs.len() > 0 {
        lemma_gid_list_bytes_len(gs.drop_first());
    }
}

pub proof fn lemma_vec3_list_bytes_len(vs: Seq<(i32, i32, i32)>)
    ensures
        spec_vec3_list_bytes(vs).len() == 12 * vs.len(),
    decreases vs.len(),
{
    if vs.len() > 0 {
        lemma_vec3_list_bytes_len(vs.drop_first());
    }
}

pub proof fn lemma_str_lrg_list_bytes_push(ss: Seq<Seq<u16>>, s: Seq<u16>)
    ensures
        spec_str_lrg_list_bytes(ss.push(s)) == spec_str_lrg_list_bytes(ss) + spec_str_lrg_bytes(s),
    decreases ss.len(),
{
    if ss.len() == 0 {
        assert(ss.push(s)[0] == s);
        assert(ss.push(s).drop_first() =~= Seq::<Seq<u16>>::empty());
        assert(spec_str_lrg_list_bytes(ss.push(s)) == spec_str_lrg_bytes(s)
            + spec_str_lrg_list_bytes(ss.push(s).drop_first()));
        assert(spec_str_lrg_list_bytes(ss.push(s)) =~= spec_str_lrg_list_bytes(ss)
            + spec_str_lrg_bytes(s));
    } else {
        assert(ss.push(s).drop_first() =~= ss.drop_first().push(s));
        lemma_str_lrg_list_bytes_push(ss.drop_first(), s);
        assert(spec_str_lrg_list_bytes(ss.push(s)) =~= spec_str_lrg_list_bytes(ss)
            + spec_str_lrg_bytes(s));
    }
}

pub proof fn lemma_gid_list_bytes_push(gs: Seq<(u8, u16)>, g: (u8, u16))
    ensures
        spec_gid_list_bytes(gs.push(g)) == spec_gid_list_bytes(gs) + spec_global_id_bytes(g),
    decreases gs.len(),
{
    if gs.len() == 0 {
        assert(gs.push(g)[0] == g);
        assert(gs.push(g).drop_first() =~= Seq::<(u8, u16)>::empty());
        assert(spec_gid_list_bytes(gs.push(g)) == spec_global_id_bytes(g) + spec_gid_list_bytes(
            gs.push(g).drop_first(),
        ));
        assert(spec_gid_list_bytes(gs.push(g)) =~= spec_gid_list_bytes(gs) + spec_global_id_bytes(
            g,
        ));
    } else {
        assert(gs.push(g).drop_first() =~= gs.drop_first().push(g));
        lemma_gid_list_bytes_push(gs.drop_first(), g);
        assert(spec_gid_list_bytes(gs.push(g)) =~= spec_gid_list_bytes(gs) + spec_global_id_bytes(
            g,
        ));
    }
}

#[verifier::rlimit(60)]
pub proof fn lemma_vec3_list_bytes_push(vs: Seq<(i32, i32, i32)>, v: (i32, i32, i32))
    ensures
        spec_vec3_list_bytes(vs.push(v)) == spec_vec3_list_bytes(vs) + spec_vec3_int_bytes(v),
    decreases vs.len(),
{
    if vs.len() == 0 {
        assert(vs.push(v)[0] == v);
        assert(vs.push(v).drop_first() =~= Seq::<(i32, i32, i32)>::empty());
        assert(spec_vec3_list_bytes(vs.push(v)) == spec_vec3_int_bytes(v) + spec_vec3_list_bytes(
            vs.push(v).drop_first(),
        ));
        assert(spec_vec3_list_bytes(vs.push(v)) =~= spec_vec3_list_bytes(vs) + spec_vec3_int_bytes(
            v,
        ));
    } else {
        assert(vs.push(v).drop_first() =~= vs.drop_first().push(v));
        lemma_vec3_list_bytes_push(vs.drop_first(), v);
        assert(spec_vec3_list_bytes(vs.push(v)) =~= spec_vec3_list_bytes(vs) + spec_vec3_int_bytes(
            v,
        ));
    }
}

/// A parsed language list re-encodes to exactly the bytes it was read from.
pub proof fn lemma_lang_list_exact(b: Seq<u8>, pos: int, n: int)
    requires
        spec_parse_lang_list(b, pos, n) is Some,
    ensures
        ({
            let ls = spec_parse_lang_list(b, pos, n).unwrap();
            &&& ls.len() == n
            &&& spec_lang_list_bytes(ls) == b.subrange(pos, pos + n)
        }),
{
    let ls = spec_parse_lang_list(b, pos, n).unwrap();
    assert forall|i: int| 0 <= i < n implies spec_lang_list_bytes(ls)[i] == b[pos + i] by {
        assert(spec_lang_of_byte(b[pos + i]) is Some);
    }
    assert(spec_lang_list_bytes(ls) =~= b.subrange(pos, pos + n));
}

/// Parsing a language list from its own encoding gives the original codes.
pub proof fn lemma_parse_lang_list_of_encoding(b: Seq<u8>, pos: int, ls: Seq<LangCode>)
    requires
        0 <= pos,
        pos + ls.len() <= b.len(),
        b.subrange(pos, pos + ls.len()) == spec_lang_list_bytes(ls),
    ensures
        spec_parse_lang_list(b, pos, ls.len() as int) == Some(ls),
{
    let n = ls.len() as int;
    assert forall|i: int| 0 <= i < n implies #[trigger] spec_lang_of_byte(b[pos + i]) == Some(
        ls[i],
    ) by {
        assert(b[pos + i] == b.subrange(pos, pos + n)[i]);
        assert(b[pos + i] == spec_lang_byte(ls[i]));
    }
    assert(spec_parse_lang_list(b, pos, n).unwrap() =~= ls);
}

/// A parsed identifier list re-encodes to exactly the bytes it was read from.
pub proof fn lemma_gid_list_exact(b: Seq<u8>, pos: int, n: int)
    requires
        spec_parse_gid_list(b, pos, n) is Some,
    ensures
        ({
            let gs = spec_parse_gid_list(b, pos, n).unwrap();
            &&& gs.len() == n
            &&& spec_gid_list_bytes(gs) == b.subrange(pos, pos + 3 * n)
        }),
    decreases n,
{
    let gs = spec_parse_gid_list(b, pos, n).unwrap();
    if n == 0 {
        assert(spec_gid_list_bytes(gs) =~= b.subrange(pos, pos));
    } else {
        let rest = spec_parse_gid_list(b, pos + 3, n - 1).unwrap();
        lemma_gid_list_exact(b, pos + 3, n - 1);
        assert(gs.drop_first() =~= rest);
        lemma_u16_from_be_round_trip(b[pos + 1], b[pos + 2]);
        assert(spec_global_id_bytes(gs[0]) =~= b.subrange(pos, pos + 3));
        assert(spec_gid_list_bytes(gs) == spec_global_id_bytes(gs[0]) + spec_gid_list_bytes(
            gs.drop_first(),
        ));
        assert(spec_gid_list_bytes(gs) =~= b.subrange(pos, pos + 3 * n));
    }
}

/// Parsing an identifier list from its own encoding gives the original ids.
pub proof fn lemma_parse_gid_list_of_encoding(b: Seq<u8>, pos: int, gs: Seq<(u8, u16)>)
    requires
        0 <= pos,
        pos + 3 * gs.len() <= b.len(),
        b.subrange(pos, pos + 3 * gs.len()) == spec_gid_list_bytes(gs),
    ensures
        spec_parse_gid_list(b, pos, gs.len() as int) == Some(gs),
    decreases gs.len(),
{
    let n = gs.len() as int;
    if n == 0 {
        assert(spec_parse_gid_list(b, pos, 0).unwrap() =~= gs);
    } else {
        assert(spec_gid_list_bytes(gs) == spec_global_id_bytes(gs[0]) + spec_gid_list_bytes(
            gs.drop_first(),
        ));
        lemma_gid_list_bytes_len(gs);
        lemma_gid_list_bytes_len(gs.drop_first());
        assert forall|j: int| 0 <= j < 3 * n - 3 implies b[pos + 3 + j] == spec_gid_list_bytes(
            gs.drop_first(),
        )[j] by {
            assert(b[pos + 3 + j] == b.subrange(pos, pos + 3 * n)[3 + j]);
            assert(spec_gid_list_bytes(gs)[3 + j] == spec_gid_list_bytes(gs.drop_first())[j]);
        }
        assert(b.subrange(pos + 3, pos + 3 * n) =~= spec_gid_list_bytes(gs.drop_first()));
        lemma_parse_gid_list_of_encoding(b, pos + 3, gs.drop_first());
        assert(b[pos] == b.subrange(pos, pos + 3 * n)[0]);
        assert(b[pos + 1] == b.subrange(pos, pos + 3 * n)[1]);
        assert(b[pos + 2] == b.subrange(pos, pos + 3 * n)[2]);
        lemma_u16_be_round_trip(gs[0].1);
        let parsed = spec_parse_gid_list(b, pos, n).unwrap();
        let rest = spec_parse_gid_list(b, pos + 3, n - 1).unwrap();
        assert forall|i: int| 0 <= i < n implies parsed[i] == gs[i] by {
            if i == 0 {
            } else {
                assert(rest[i - 1] == gs.drop_first()[i - 1]);
            }
        }
        assert(parsed =~= gs);
    }
}

/// A parsed vector list re-encodes to exactly the bytes it was read from.
#[verifier::rlimit(60)]
pub proof fn lemma_vec3_list_exact(b: Seq<u8>, pos: int, n: int)
    requires
        spec_parse_vec3_list(b, pos, n) is Some,
    ensures
        ({
            let vs = spec_parse_vec3_list(b, pos, n).unwrap();
            &&& vs.len() == n
            &&& spec_vec3_list_bytes(vs) == b.subrange(pos, pos + 12 * n)
        }),
    decreases n,
{
    let vs = spec_parse_vec3_list(b, pos, n).unwrap();
    if n == 0 {
        assert(spec_vec3_list_bytes(vs) =~= b.subrange(pos, pos));
    } else {
        let rest = spec_parse_vec3_list(b, pos + 12, n - 1).unwrap();
        lemma_vec3_list_exact(b, pos + 12, n - 1);
        assert(vs.drop_first() =~= rest);
        lemma_u32_from_be_round_trip(b[pos], b[pos + 1], b[pos + 2], b[pos + 3]);
        lemma_u32_from_be_round_trip(b[pos + 4], b[pos + 5], b[pos + 6], b[pos + 7]);
        lemma_u32_from_be_round_trip(b[pos + 8], b[pos + 9], b[pos + 10], b[pos + 11]);
        assert(spec_vec3_int_bytes(vs[0]) =~= b.subrange(pos, pos + 12));
        assert(spec_vec3_list_bytes(vs) == spec_vec3_int_bytes(vs[0]) + spec_vec3_list_bytes(
            vs.drop_first(),
        ));
        assert(spec_vec3_list_bytes(vs) =~= b.subrange(pos, pos + 12 * n));
    }
}

/// One encoded vector at `pos` reads back as its three components.
#[verifier::rlimit(60)]
pub proof fn lemma_parse_vec3_head(b: Seq<u8>, pos: int, v: (i32, i32, i32))
    requires
        0 <= pos,
        pos + 12 <= b.len(),
        b.subrange(pos, pos + 12) == spec_vec3_int_bytes(v),
    ensures
        spec_u32_from_be(b[pos], b[pos + 1], b[pos + 2], b[pos + 3]) == spec_i32_as_u32(v.0),
        spec_u32_from_be(b[pos + 4], b[pos + 5], b[pos + 6], b[pos + 7]) == spec_i32_as_u32(v.1),
        spec_u32_from_be(b[pos + 8], b[pos + 9], b[pos + 10], b[pos + 11]) == spec_i32_as_u32(v.2),
{
    let x0 = spec_i32_as_u32(v.0);
    let x1 = spec_i32_as_u32(v.1);
    let x2 = spec_i32_as_u32(v.2);
    let a0 = spec_u32_be(x0);
    let a1 = spec_u32_be(x1);
    let a2 = spec_u32_be(x2);
    let s12 = b.subrange(pos, pos + 12);
    assert(s12 == (a0 + a1) + a2);
    assert(a0.len() == 4 && a1.len() == 4 && a2.len() == 4);
    assert(b[pos] == s12[0] && s12[0] == ((a0 + a1) + a2)[0] && ((a0 + a1) + a2)[0] == a0[0]);
    assert(b[pos + 1] == s12[1] && s12[1] == ((a0 + a1) + a2)[1] && ((a0 + a1) + a2)[1] == a0[1]);
    assert(b[pos + 2] == s12[2] && s12[2] == ((a0 + a1) + a2)[2] && ((a0 + a1) + a2)[2] == a0[2]);
    assert(b[pos + 3] == s12[3] && s12[3] == ((a0 + a1) + a2)[3] && ((a0 + a1) + a2)[3] == a0[3]);
    assert(b[pos + 4] == s12[4] && s12[4] == ((a0 + a1) + a2)[4] && ((a0 + a1) + a2)[4] == a1[0]);
    assert(b[pos + 5] == s12[5] && s12[5] == ((a0 + a1) + a2)[5] && ((a0 + a1) + a2)[5] == a1[1]);
    assert(b[pos + 6] == s12[6] && s12[6] == ((a0 + a1) + a2)[6] && ((a0 + a1) + a2)[6] == a1[2]);
    assert(b[pos + 7] == s12[7] && s12[7] == ((a0 + a1) + a2)[7] && ((a0 + a1) + a2)[7] == a1[3]);
    assert(b[pos + 8] == s12[8] && s12[8] == ((a0 + a1) + a2)[8] && ((a0 + a1) + a2)[8] == a2[0]);
    assert(b[pos + 9] == s12[9] && s12[9] == ((a0 + a1) + a2)[9] && ((a0 + a1) + a2)[9] == a2[1]);
    assert(b[pos + 10] == s12[10] && s12[10] == ((a0 + a1) + a2)[10] && ((a0 + a1) + a2)[10]
        == a2[2]);
    assert(b[pos + 11] == s12[11] && s12[11] == ((a0 + a1) + a2)[11] && ((a0 + a1) + a2)[11]
        == a2[3]);
    lemma_u32_be_round_trip(x0);
    lemma_u32_be_round_trip(x1);
    lemma_u32_be_round_trip(x2);
}

/// Parsing a vector list from its own encoding gives the original vectors.
#[verifier::rlimit(100)]
pub proof fn lemma_parse_vec3_list_of_encoding(b: Seq<u8>, pos: int, vs: Seq<(i32, i32, i32)>)
    requires
        0 <= pos,
        pos + 12 * vs.len() <= b.len(),
        b.subrange(pos, pos + 12 * vs.len()) == spec_vec3_list_bytes(vs),
    ensures
        spec_parse_vec3_list(b, pos, vs.len() as int) == Some(vs),
    decreases vs.len(),
{
    let n = vs.len() as int;
    if n == 0 {
        assert(spec_parse_vec3_list(b, pos, 0).unwrap() =~= vs);
    } else {
        assert(spec_vec3_list_bytes(vs) == spec_vec3_int_bytes(vs[0]) + spec_vec3_list_bytes(
            vs.drop_first(),
        ));
        lemma_vec3_list_bytes_len(vs);
        lemma_vec3_list_bytes_len(vs.drop_first());
        assert forall|j: int| 0 <= j < 12 * n - 12 implies b[pos + 12 + j] == spec_vec3_list_bytes(
            vs.drop_first(),
        )[j] by {
            assert(b[pos + 12 + j] == b.subrange(pos, pos + 12 * n)[12 + j]);
            assert(spec_vec3_list_bytes(vs)[12 + j] == spec_vec3_list_bytes(vs.drop_first())[j]);
        }
        assert(b.subrange(pos + 12, pos + 12 * n) =~= spec_vec3_list_bytes(vs.drop_first()));
        lemma_parse_vec3_list_of_encoding(b, pos + 12, vs.drop_first());
        assert(spec_vec3_int_bytes(vs[0]).len() == 12);
        assert forall|j: int| 0 <= j < 12 implies b.subrange(pos, pos + 12)[j]
            == spec_vec3_int_bytes(vs[0])[j] by {
            assert(b.subrange(pos, pos + 12)[j] == b[pos + j]);
            assert(b[pos + j] == b.subrange(pos, pos + 12 * n)[j]);
            assert((spec_vec3_int_bytes(vs[0]) + spec_vec3_list_bytes(vs.drop_first()))[j]
                == spec_vec3_int_bytes(vs[0])[j]);
        }
        assert(b.subrange(pos, pos + 12) =~= spec_vec3_int_bytes(vs[0]));
        lemma_parse_vec3_head(b, pos, vs[0]);
        let parsed = spec_parse_vec3_list(b, pos, n).unwrap();
        let rest = spec_parse_vec3_list(b, pos + 12, n - 1).unwrap();
        assert(parsed[0] == vs[0]);
        assert forall|i: int| 0 < i < n implies parsed[i] == vs[i] by {
            assert(rest[i - 1] == vs.drop_first()[i - 1]);
        }
        assert(parsed =~= vs);
    }
}

/// A parsed string list re-encodes to exactly the bytes it was read from.
pub proof fn lemma_str_lrg_list_exact(b: Seq<u8>, pos: int, n: int)
    requires
        0 <= n,
        0 <= pos <= b.len(),
        spec_parse_str_lrg_list(b, pos, n) is Some,
    ensures
        ({
            let (ss, end) = spec_parse_str_lrg_list(b, pos, n).unwrap();
            &&& ss.len() == n
            &&& pos <= end <= b.len()
            &&& spec_str_lrg_list_bytes(ss) == b.subrange(pos, end)
            &&& forall|i: int| 0 <= i < ss.len() ==> #[trigger] ss[i].len() <= 65535
        }),
    decreases n,
{
    let (ss, end) = spec_parse_str_lrg_list(b, pos, n).unwrap();
    if n == 0 {
        assert(ss.len() == 0);
        assert(spec_str_lrg_list_bytes(ss) =~= b.subrange(pos, end));
    } else {
        let (s, mid) = spec_parse_str_lrg_at(b, pos).unwrap();
        let (rest, e2) = spec_parse_str_lrg_list(b, mid, n - 1).unwrap();
        lemma_str_lrg_exact_at(b, pos);
        lemma_str_lrg_list_exact(b, mid, n - 1);
        assert(ss == seq![s] + rest);
        assert(ss[0] == s);
        assert(ss.drop_first() =~= rest);
        assert(spec_str_lrg_list_bytes(ss) == spec_str_lrg_bytes(s) + spec_str_lrg_list_bytes(
            rest,
        ));
        assert(0 <= pos <= mid <= b.len());
        assert(spec_str_lrg_list_bytes(ss) =~= b.subrange(pos, end));
    }
}

/// Parsing a string list from its own encoding gives the original strings.
pub proof fn lemma_parse_str_lrg_list_of_encoding(b: Seq<u8>, pos: int, ss: Seq<Seq<u16>>)
    requires
        0 <= pos,
        forall|i: int| 0 <= i < ss.len() ==> #[trigger] ss[i].len() <= 65535,
        pos + spec_str_lrg_list_bytes(ss).len() <= b.len(),
        b.subrange(pos, pos + spec_str_lrg_list_bytes(ss).len()) == spec_str_lrg_list_bytes(ss),
    ensures
        spec_parse_str_lrg_list(b, pos, ss.len() as int) == Some(
            (ss, pos + spec_str_lrg_list_bytes(ss).len()),
        ),
    decreases ss.len(),
{
    let n = ss.len() as int;
    let total = spec_str_lrg_list_bytes(ss).len() as int;
    if n == 0 {
        assert(spec_parse_str_lrg_list(b, pos, 0) == Some((Seq::<Seq<u16>>::empty(), pos)));
        assert(Seq::<Seq<u16>>::empty() =~= ss);
    } else {
        let s = ss[0];
        let l0 = spec_str_lrg_bytes(s).len() as int;
        assert(spec_str_lrg_list_bytes(ss) == spec_str_lrg_bytes(s) + spec_str_lrg_list_bytes(
            ss.drop_first(),
        ));
        crate::types_str::lemma_utf16_bytes_len(s);
        assert(l0 == 2 + 2 * s.len());
        assert(b.subrange(pos, pos + l0) =~= spec_str_lrg_bytes(s));
        lemma_parse_str_lrg_at_encoding(b, pos, s);
        assert(spec_str_lrg_list_bytes(ss).len() == l0 + spec_str_lrg_list_bytes(
            ss.drop_first(),
        ).len());
        assert forall|j: int| 0 <= j < total - l0 implies b[pos + l0 + j]
            == spec_str_lrg_list_bytes(ss.drop_first())[j] by {
            assert(b[pos + l0 + j] == b.subrange(pos, pos + total)[l0 + j]);
            assert(spec_str_lrg_list_bytes(ss)[l0 + j] == spec_str_lrg_list_bytes(
                ss.drop_first(),
            )[j]);
        }
        assert(b.subrange(pos + l0, pos + total) =~= spec_str_lrg_list_bytes(ss.drop_first()));
        lemma_parse_str_lrg_list_of_encoding(b, pos + l0, ss.drop_first());
        assert(seq![s] + ss.drop_first() =~= ss);
    }
}

// -----------------------------  record lemmas -----------------------------
/// Parsing at the position where a STRING record was encoded gives it back.
#[verifier::rlimit(100)]
pub proof fn lemma_parse_form_string_of_encoding(b: Seq<u8>, pos: int, m: FormStringModel)
    requires
        form_model_wf(FormModel::Str(m)),
        0 <= pos,
        pos + spec_form_bytes(FormModel::Str(m)).len() <= b.len(),
        b.subrange(pos, pos + spec_form_bytes(FormModel::Str(m)).len()) == spec_form_bytes(
            FormModel::Str(m),
        ),
    ensures
        spec_parse_form_at(b, pos) == Some(
            (FormModel::Str(m), pos + spec_form_bytes(FormModel::Str(m)).len() as int),
        ),
{
    reveal(crate::form::spec_parse_form_at);
    let f = FormModel::Str(m);
    let e = spec_form_bytes(f);
    let u = spec_u16_be(m.form_id);
    let t = seq![0u8];
    let nm = spec_str_sml_bytes(m.form_name);
    let cnt = seq![m.languages.len() as u8];
    let lg = spec_lang_list_bytes(m.languages);
    let st = spec_str_lrg_list_bytes(m.strings);
    assert(e == ((((u + t) + nm) + cnt) + lg) + st);
    crate::types_str::lemma_utf16_bytes_len(m.form_name);
    let n = m.languages.len() as int;
    let o2 = pos + 3;
    let o3 = o2 + nm.len() as int;
    let o4 = o3 + 1;
    let o5 = o4 + n;
    let end = o5 + st.len() as int;
    assert(end == pos + e.len());
    lemma_region_split(b, pos, (((u + t) + nm) + cnt) + lg, st, end);
    lemma_region_split(b, pos, ((u + t) + nm) + cnt, lg, o5);
    lemma_region_split(b, pos, (u + t) + nm, cnt, o4);
    lemma_region_split(b, pos, u + t, nm, o3);
    lemma_region_split(b, pos, u, t, pos + 3);
    assert(b[pos] == b.subrange(pos, pos + 2)[0]);
    assert(b[pos + 1] == b.subrange(pos, pos + 2)[1]);
    assert(b[pos + 2] == b.subrange(pos + 2, pos + 3)[0]);
    assert(b[pos + 2] == 0);
    lemma_u16_be_round_trip(m.form_id);
    assert(spec_u16_from_be(b[pos], b[pos + 1]) == m.form_id);
    lemma_parse_str_sml_at_encoding(b, o2, m.form_name);
    assert(spec_parse_str_sml_at(b, pos + 3) == Some((m.form_name, o3)));
    assert(b[o3] == b.subrange(o3, o4)[0]);
    assert(b[o3] as int == n);
    lemma_parse_lang_list_of_encoding(b, o4, m.languages);
    lemma_parse_str_lrg_list_of_encoding(b, o5, m.strings);
    assert(spec_parse_str_lrg_list(b, o4 + n, n) == Some((m.strings, end)));
    let parsed = spec_parse_form_string(b, pos).unwrap();
    assert(spec_parse_form_string(b, pos) is Some);
    assert(parsed.1 == end);
    assert(parsed.0 =~= f);
    assert(spec_parse_form_at(b, pos) == Some((f, end)));
}

/// Parsing at the position where a WORLD record was encoded gives it back.
#[verifier::rlimit(100)]
pub proof fn lemma_parse_form_world_of_encoding(b: Seq<u8>, pos: int, m: FormWorldModel)
    requires
        form_model_wf(FormModel::World(m)),
        0 <= pos,
        pos + spec_form_bytes(FormModel::World(m)).len() <= b.len(),
        b.subrange(pos, pos + spec_form_bytes(FormModel::World(m)).len()) == spec_form_bytes(
            FormModel::World(m),
        ),
    ensures
        spec_parse_form_at(b, pos) == Some(
            (FormModel::World(m), pos + spec_form_bytes(FormModel::World(m)).len() as int),
        ),
{
    reveal(crate::form::spec_parse_form_at);
    let f = FormModel::World(m);
    let e = spec_form_bytes(f);
    let u = spec_u16_be(m.form_id);
    let t = seq![1u8];
    let nm = spec_str_sml_bytes(m.form_name);
    let wn = spec_global_id_bytes(m.world_name_id);
    let wm = spec_str_sml_bytes(m.world_map);
    let n = m.world_parts.len() as int;
    let cnt = spec_u16_be(m.world_parts.len() as u16);
    let gl = spec_gid_list_bytes(m.world_parts);
    let vl = spec_vec3_list_bytes(m.world_part_anchors);
    assert(e == ((((((u + t) + nm) + wn) + wm) + cnt) + gl) + vl);
    crate::types_str::lemma_utf16_bytes_len(m.form_name);
    crate::types_str::lemma_utf16_bytes_len(m.world_map);
    lemma_gid_list_bytes_len(m.world_parts);
    lemma_vec3_list_bytes_len(m.world_part_anchors);
    let o3 = pos + 3 + nm.len() as int;
    let o4 = o3 + 3;
    let o5 = o4 + wm.len() as int;
    let o6 = o5 + 2;
    let o7 = o6 + 3 * n;
    let end = o7 + 12 * n;
    assert(end == pos + e.len());
    lemma_region_split(b, pos, (((((u + t) + nm) + wn) + wm) + cnt) + gl, vl, end);
    lemma_region_split(b, pos, ((((u + t) + nm) + wn) + wm) + cnt, gl, o7);
    lemma_region_split(b, pos, (((u + t) + nm) + wn) + wm, cnt, o6);
    lemma_region_split(b, pos, ((u + t) + nm) + wn, wm, o5);
    lemma_region_split(b, pos, (u + t) + nm, wn, o4);
    lemma_region_split(b, pos, u + t, nm, o3);
    lemma_region_split(b, pos, u, t, pos + 3);
    assert(b[pos] == b.subrange(pos, pos + 2)[0]);
    assert(b[pos + 1] == b.subrange(pos, pos + 2)[1]);
    assert(b[pos + 2] == b.subrange(pos + 2, pos + 3)[0]);
    assert(b[pos + 2] == 1);
    lemma_u16_be_round_trip(m.form_id);
    assert(spec_u16_from_be(b[pos], b[pos + 1]) == m.form_id);
    lemma_parse_str_sml_at_encoding(b, pos + 3, m.form_name);
    assert(spec_parse_str_sml_at(b, pos + 3) == Some((m.form_name, o3)));
    assert(b[o3] == b.subrange(o3, o4)[0]);
    assert(b[o3 + 1] == b.subrange(o3, o4)[1]);
    assert(b[o3 + 2] == b.subrange(o3, o4)[2]);
    assert((seq![m.world_name_id.0] + spec_u16_be(m.world_name_id.1))[0] == m.world_name_id.0);
    assert((seq![m.world_name_id.0] + spec_u16_be(m.world_name_id.1))[1] == spec_u16_be(
        m.world_name_id.1,
    )[0]);
    assert((seq![m.world_name_id.0] + spec_u16_be(m.world_name_id.1))[2] == spec_u16_be(
        m.world_name_id.1,
    )[1]);
    lemma_u16_be_round_trip(m.world_name_id.1);
    assert(b[o3] == m.world_name_id.0);
    assert(spec_u16_from_be(b[o3 + 1], b[o3 + 2]) == m.world_name_id.1);
    lemma_parse_str_sml_at_encoding(b, o4, m.world_map);
    assert(spec_parse_str_sml_at(b, o4) == Some((m.world_map, o5)));
    assert(b[o5] == b.subrange(o5, o6)[0]);
    assert(b[o5 + 1] == b.subrange(o5, o6)[1]);
    lemma_u16_be_round_trip(m.world_parts.len() as u16);
    assert(spec_u16_from_be(b[o5], b[o5 + 1]) as int == n);
    lemma_parse_gid_list_of_encoding(b, o6, m.world_parts);
    lemma_parse_vec3_list_of_encoding(b, o7, m.world_part_anchors);
    let parsed = spec_parse_form_world(b, pos).unwrap();
    assert(spec_parse_form_world(b, pos) is Some);
    assert(parsed.1 == end);
    assert(parsed.0 =~= f);
    assert(spec_parse_form_at(b, pos) == Some((f, end)));
}

/// Parsing at the position where a REFGROUP record was encoded gives it back.
#[verifier::rlimit(100)]
pub proof fn lemma_parse_form_refgroup_of_encoding(b: Seq<u8>, pos: int, m: FormRefGroupModel)
    requires
        form_model_wf(FormModel::RefGroup(m)),
        0 <= pos,
        pos + spec_form_bytes(FormModel::RefGroup(m)).len() <= b.len(),
        b.subrange(pos, pos + spec_form_bytes(FormModel::RefGroup(m)).len()) == spec_form_bytes(
            FormModel::RefGroup(m),
        ),
    ensures
        spec_parse_form_at(b, pos) == Some(
            (FormModel::RefGroup(m), pos + spec_form_bytes(FormModel::RefGroup(m)).len() as int),
        ),
{
    reveal(crate::form::spec_parse_form_at);
    let f = FormModel::RefGroup(m);
    let e = spec_form_bytes(f);
    let u = spec_u16_be(m.form_id);
    let t = seq![2u8];
    let nm = spec_str_sml_bytes(m.form_name);
    let n = m.form_references.len() as int;
    let cnt = seq![m.form_references.len() as u8];
    let gl = spec_gid_list_bytes(m.form_references);
    assert(e == (((u + t) + nm) + cnt) + gl);
    crate::types_str::lemma_utf16_bytes_len(m.form_name);
    lemma_gid_list_bytes_len(m.form_references);
    let o3 = pos + 3 + nm.len() as int;
    let o4 = o3 + 1;
    let end = o4 + 3 * n;
    assert(end == pos + e.len());
    lemma_region_split(b, pos, ((u + t) + nm) + cnt, gl, end);
    lemma_region_split(b, pos, (u + t) + nm, cnt, o4);
    lemma_region_split(b, pos, u + t, nm, o3);
    lemma_region_split(b, pos, u, t, pos + 3);
    assert(b[pos] == b.subrange(pos, pos + 2)[0]);
    assert(b[pos + 1] == b.subrange(pos, pos + 2)[1]);
    assert(b[pos + 2] == b.subrange(pos + 2, pos + 3)[0]);
    assert(b[pos + 2] == 2);
    lemma_u16_be_round_trip(m.form_id);
    assert(spec_u16_from_be(b[pos], b[pos + 1]) == m.form_id);
    lemma_parse_str_sml_at_encoding(b, pos + 3, m.form_name);
    assert(spec_parse_str_sml_at(b, pos + 3) == Some((m.form_name, o3)));
    assert(b[o3] == b.subrange(o3, o4)[0]);
    assert(b[o3] as int == n);
    lemma_parse_gid_list_of_encoding(b, o4, m.form_references);
    let parsed = spec_parse_form_refgroup(b, pos).unwrap();
    assert(spec_parse_form_refgroup(b, pos) is Some);
    assert(parsed.1 == end);
    assert(parsed.0 =~= f);
    assert(spec_parse_form_at(b, pos) == Some((f, end)));
}

/// Parsing at the position where any record was encoded gives it back.
pub proof fn lemma_parse_form_of_encoding(b: Seq<u8>, pos: int, f: FormModel)
    requires
        form_model_wf(f),
        0 <= pos,
        pos + spec_form_bytes(f).len() <= b.len(),
        b.subrange(pos, pos + spec_form_bytes(f).len()) == spec_form_bytes(f),
    ensures
        spec_parse_form_at(b, pos) == Some((f, pos + spec_form_bytes(f).len() as int)),
{
    match f {
        FormModel::Str(m) => lemma_parse_form_string_of_encoding(b, pos, m),
        FormModel::World(m) => lemma_parse_form_world_of_encoding(b, pos, m),
        FormModel::RefGroup(m) => lemma_parse_form_refgroup_of_encoding(b, pos, m),
    }
}

/// A parsed record re-encodes to exactly the bytes it was read from, and
/// its identifier and tag stand in the record's first three bytes.
#[verifier::rlimit(100)]
pub proof fn lemma_form_parse_exact(b: Seq<u8>, pos: int)
    requires
        spec_parse_form_at(b, pos) is Some,
    ensures
        ({
            let (f, end) = spec_parse_form_at(b, pos).unwrap();
            &&& form_model_wf(f)
            &&& pos + 3 <= end <= b.len()
            &&& end == pos + spec_form_bytes(f).len()
            &&& spec_form_bytes(f) == b.subrange(pos, end)
            &&& spec_form_model_id(f) == spec_u16_from_be(b[pos], b[pos + 1])
            &&& spec_form_type_byte(spec_form_model_type(f)) == b[pos + 2]
        }),
{
    reveal(crate::form::spec_parse_form_at);
    let (f, end) = spec_parse_form_at(b, pos).unwrap();
    let tag = b[pos + 2];
    let (name, o3) = spec_parse_str_sml_at(b, pos + 3).unwrap();
    lemma_str_sml_exact_at(b, pos + 3);
    let id = spec_u16_from_be(b[pos], b[pos + 1]);
    lemma_u16_from_be_round_trip(b[pos], b[pos + 1]);
    let u = spec_u16_be(id);
    let t = seq![tag];
    let nm = spec_str_sml_bytes(name);
    assert(u =~= b.subrange(pos, pos + 2));
    assert(t =~= b.subrange(pos + 2, pos + 3));
    lemma_concat_adjacent(b, pos, pos + 2, pos + 3);
    lemma_concat_adjacent(b, pos, pos + 3, o3);
    assert((u + t) + nm == b.subrange(pos, o3));
    if tag == 0 {
        let mm = f->Str_0;
        let n = b[o3] as int;
        let cnt = seq![b[o3]];
        lemma_lang_list_exact(b, o3 + 1, n);
        let lg = spec_lang_list_bytes(mm.languages);
        assert(cnt =~= b.subrange(o3, o3 + 1));
        lemma_str_lrg_list_exact(b, o3 + 1 + n, n);
        let st = spec_str_lrg_list_bytes(mm.strings);
        assert(mm.languages.len() as u8 == b[o3]);
        lemma_concat_adjacent(b, pos, o3, o3 + 1);
        lemma_concat_adjacent(b, pos, o3 + 1, o3 + 1 + n);
        lemma_concat_adjacent(b, pos, o3 + 1 + n, end);
        assert(spec_form_bytes(f) == ((((u + t) + nm) + cnt) + lg) + st);
        assert(spec_form_bytes(f) == b.subrange(pos, end));
    } else if tag == 1 {
        let mm = f->World_0;
        let wn = spec_global_id_bytes(mm.world_name_id);
        lemma_u16_from_be_round_trip(b[o3 + 1], b[o3 + 2]);
        assert(wn =~= b.subrange(o3, o3 + 3));
        let (wmap, o4) = spec_parse_str_sml_at(b, o3 + 3).unwrap();
        lemma_str_sml_exact_at(b, o3 + 3);
        let wm = spec_str_sml_bytes(wmap);
        let n = spec_u16_from_be(b[o4], b[o4 + 1]) as int;
        let cnt = spec_u16_be(mm.world_parts.len() as u16);
        lemma_gid_list_exact(b, o4 + 2, n);
        lemma_vec3_list_exact(b, o4 + 2 + 3 * n, n);
        assert(mm.world_parts.len() == n && mm.world_part_anchors.len() == n);
        lemma_u16_from_be_round_trip(b[o4], b[o4 + 1]);
        assert(cnt =~= b.subrange(o4, o4 + 2));
        let gl = spec_gid_list_bytes(mm.world_parts);
        let vl = spec_vec3_list_bytes(mm.world_part_anchors);
        lemma_concat_adjacent(b, pos, o3, o3 + 3);
        lemma_concat_adjacent(b, pos, o3 + 3, o4);
        lemma_concat_adjacent(b, pos, o4, o4 + 2);
        lemma_concat_adjacent(b, pos, o4 + 2, o4 + 2 + 3 * n);
        lemma_concat_adjacent(b, pos, o4 + 2 + 3 * n, end);
        assert(spec_form_bytes(f) == (((((((u + t) + nm) + wn) + wm) + cnt) + gl) + vl));
        assert(spec_form_bytes(f) == b.subrange(pos, end));
    } else {
        let mm = f->RefGroup_0;
        let n = b[o3] as int;
        let cnt = seq![b[o3]];
        lemma_gid_list_exact(b, o3 + 1, n);
        let gl = spec_gid_list_bytes(mm.form_references);
        assert(cnt =~= b.subrange(o3, o3 + 1));
        assert(mm.form_references.len() as u8 == b[o3]);
        lemma_concat_adjacent(b, pos, o3, o3 + 1);
        lemma_concat_adjacent(b, pos, o3 + 1, end);
        assert(spec_form_bytes(f) == (((u + t) + nm) + cnt) + gl);
        assert(spec_form_bytes(f) == b.subrange(pos, end));
    }
}

// -----------------------------  FormBase -----------------------------
/// The shared prefix every record starts with: identifier, type tag, name.
#[derive(Debug, PartialEq, Eq, Clone)]
pub struct FormBase {
    pub form_id: FormID,
    pub form_type: FormType,
    pub form_name: StrSml,
}

impl FormBase {
    /// Number of bytes for the form identifier field.
    pub const BYTE_COUNT_FORM_ID: usize = 2;

    /// Number of bytes for the form type field.
    pub const BYTE_COUNT_FORM_TYPE: usize = 1;

    /// The name fits its one-byte count.
    pub open spec fn wf(self) -> bool {
        self.form_name.wf()
    }

    /// Serializes the prefix: identifier, tag byte, name.
    pub fn to_bytes(&self) -> (r: Vec<u8>)
        requires
            self.wf(),
        ensures
            r@ == spec_form_base_bytes(
                self.form_id@,
                spec_form_type_byte(self.form_type),
                self.form_name@,
            ),
    {
        let mut out: Vec<u8> = Vec::new();
        push_u16_be(&mut out, self.form_id.to_u16());
        out.push(self.form_type.to_byte());
        let mut nb = self.form_name.to_bytes();
        out.append(&mut nb);
        assert(out@ =~= spec_form_base_bytes(
            self.form_id@,
            spec_form_type_byte(self.form_type),
            self.form_name@,
        ));
        out
    }

    /// The serialized width of the prefix.
    pub fn get_byte_count(&self) -> (r: usize)
        requires
            self.wf(),
        ensures
            r == spec_form_base_bytes(
                self.form_id@,
                spec_form_type_byte(self.form_type),
                self.form_name@,
            ).len(),
    {
        proof {
            crate::types_str::lemma_utf16_bytes_len(self.form_name@);
        }
        3 + self.form_name.get_byte_count()
    }
}

// -----------------------------  Form -----------------------------
/// Any record the codec handles, as a closed tagged union.
#[derive(Debug, PartialEq, Eq, Clone)]
pub enum Form {
    Str(crate::form_string::FormString),
    World(crate::form_world::FormWorld),
    RefGroup(crate::form_refgroup::FormRefGroup),
}

impl View for Form {
    type V = FormModel;

    open spec fn view(&self) -> FormModel {
        match self {
            Form::Str(f) => FormModel::Str(f@),
            Form::World(f) => FormModel::World(f@),
            Form::RefGroup(f) => FormModel::RefGroup(f@),
        }
    }
}

impl Form {
    /// The variant's own well-formedness.
    pub open spec fn wf(self) -> bool {
        match self {
            Form::Str(f) => f.wf(),
            Form::World(f) => f.wf(),
            Form::RefGroup(f) => f.wf(),
        }
    }

    /// The record's form identifier.
    pub fn form_id(&self) -> (r: FormID)
        ensures
            r@ == spec_form_model_id(self@),
    {
        match self {
            Form::Str(f) => f.base.form_id,
            Form::World(f) => f.base.form_id,
            Form::RefGroup(f) => f.base.form_id,
        }
    }

    /// The record's type tag.
    pub fn form_type(&self) -> (r: FormType)
        requires
            self.wf(),
        ensures
            r == spec_form_model_type(self@),
    {
        match self {
            Form::Str(f) => f.base.form_type,
            Form::World(f) => f.base.form_type,
            Form::RefGroup(f) => f.base.form_type,
        }
    }

    /// The record's name.
    pub fn form_name(&self) -> (r: StrSml)
        ensures
            r@ == spec_form_model_name(self@),
    {
        match self {
            Form::Str(f) => f.base.form_name.copied(),
            Form::World(f) => f.base.form_name.copied(),
            Form::RefGroup(f) => f.base.form_name.copied(),
        }
    }

    /// Serializes the record.
    pub fn to_bytes(&self) -> (r: Vec<u8>)
        requires
            self.wf(),
        ensures
            r@ == spec_form_bytes(self@),
    {
        match self {
            Form::Str(f) => f.to_bytes(),
            Form::World(f) => f.to_bytes(),
            Form::RefGroup(f) => f.to_bytes(),
        }
    }

    /// The serialized width of the record.
    pub fn get_byte_count(&self) -> (r: usize)
        requires
            self.wf(),
        ensures
            r == spec_form_bytes(self@).len(),
    {
        match self {
            Form::Str(f) => f.get_byte_count(),
            Form::World(f) => f.get_byte_count(),
            Form::RefGroup(f) => f.get_byte_count(),
        }
    }

    /// Reads one record at `pos`, dispatching on the type tag; an unknown
    /// tag or malformed content is a corrupt-record error.
    pub(crate) fn read_at(bytes: &[u8], pos: usize) -> (r: Result<(Form, usize), ArchiveError>)
        ensures
            spec_parse_form_at(bytes@, pos as int) matches Some(p) ==> (r matches Ok(q) && q.0@
                == p.0 && q.1 == p.1 && q.0.wf()),
            spec_parse_form_at(bytes@, pos as int) is None ==> (r matches Err(e) && e
                == ArchiveError::Corrupt),
    {
        proof {
            reveal(crate::form::spec_parse_form_at);
        }
        let blen = bytes.len();
        if blen < 3 || pos > blen - 3 {
            return Err(ArchiveError::Corrupt);
        }
        let tag = bytes[pos + 2];
        if tag == 0 {
            match crate::form_string::FormString::read_at(bytes, pos) {
                Ok((f, end)) => Ok((Form::Str(f), end)),
                Err(e) => Err(e),
            }
        } else if tag == 1 {
            match crate::form_world::FormWorld::read_at(bytes, pos) {
                Ok((f, end)) => Ok((Form::World(f), end)),
                Err(e) => Err(e),
            }
        } else if tag == 2 {
            match crate::form_refgroup::FormRefGroup::read_at(bytes, pos) {
                Ok((f, end)) => Ok((Form::RefGroup(f), end)),
                Err(e) => Err(e),
            }
        } else {
            Err(ArchiveError::Corrupt)
        }
    }

    /// Reads one record from the front of the buffer, returning it and the
    /// number of bytes consumed.
    pub fn read_from_byte_buffer(bytes: &[u8]) -> (r: Result<(Form, usize), ArchiveError>)
        ensures
            spec_parse_form(bytes@) matches Some(p) ==> (r matches Ok(q) && q.0@ == p.0 && q.1
                == p.1 && q.0.wf()),
            spec_parse_form(bytes@) is None ==> (r matches Err(e) && e == ArchiveError::Corrupt),
    {
        Form::read_at(bytes, 0)
    }
}

} // verus!
