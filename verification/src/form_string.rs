//! The STRING form: a named record carrying one translated string per
//! language code.
use vstd::prelude::*;

use crate::ArchiveError;
use crate::bytes::push_u16_be;
use crate::form::{
    lemma_str_lrg_list_bytes_push, spec_form_base_bytes, spec_form_bytes, spec_lang_list_bytes,
    spec_parse_form_at, spec_parse_lang_list, spec_parse_str_lrg_list, spec_str_lrg_list_bytes,
    form_model_wf, FormBase, FormModel, FormStringModel,
};
use crate::types_id::FormID;
use crate::types_misc::{spec_lang_of_byte, FormType, LangCode};
use crate::types_str::{read_str_lrg_at, read_str_sml_at, spec_parse_str_sml_at, StrLrg, StrSml};

verus! {

/// The code-unit sequences of a list of strings, in order.
pub open spec fn spec_str_lrg_views(v: Seq<StrLrg>) -> Seq<Seq<u16>> {
    Seq::new(v.len(), |i: int| v[i]@)
}

/// A record holding one translated string per language code.
#[derive(Debug, PartialEq, Eq, Clone)]
pub struct FormString {
    pub base: FormBase,
    pub languages: Vec<LangCode>,
    pub strings: Vec<StrLrg>,
}

impl View for FormString {
    type V = FormStringModel;

    open spec fn view(&self) -> FormStringModel {
        FormStringModel {
            form_id: self.base.form_id@,
            form_name: self.base.form_name@,
            languages: self.languages@,
            strings: spec_str_lrg_views(self.strings@),
        }
    }
}

impl FormString {
    /// Number of bytes for the language count.
    pub const BYTE_COUNT_LANG_COUNT: usize = 1;

    /// The tag is STRING and every count fits its length prefix.
    pub open spec fn wf(self) -> bool {
        &&& self.base.form_type == FormType::STRING
        &&& form_model_wf(FormModel::Str(self@))
    }

    /// Builds a STRING form; languages and strings must pair up.
    pub fn new(form_id: FormID, form_name: StrSml, languages: Vec<LangCode>, strings: Vec<StrLrg>)
        -> (r: FormString)
        requires
            languages@.len() == strings@.len(),
            languages@.len() <= 255,
            form_name.wf(),
            forall|i: int| 0 <= i < strings@.len() ==> (#[trigger] strings@[i]).wf(),
        ensures
            r@ == (FormStringModel {
                form_id: form_id@,
                form_name: form_name@,
                languages: languages@,
                strings: spec_str_lrg_views(strings@),
            }),
            r.wf(),
    {
        let r = FormString {
            base: FormBase { form_id, form_type: FormType::STRING, form_name },
            languages,
            strings,
        };
        proof {
            assert(forall|i: int|
                0 <= i < r@.strings.len() ==> #[trigger] r@.strings[i].len() <= 65535);
        }
        r
    }

    /// The serialized width of the whole record.
    pub fn get_byte_count(&self) -> (r: usize)
        requires
            self.wf(),
        ensures
            r == spec_form_bytes(FormModel::Str(self@)).len(),
    {
        let base_count = self.base.get_byte_count();
        let mut sum: usize = 0;
        let mut i: usize = 0;
        while i < self.strings.len()
            invariant
                i <= self.strings@.len(),
                self.wf(),
                sum == spec_str_lrg_list_bytes(spec_str_lrg_views(self.strings@).take(
                    i as int,
                )).len(),
                sum <= 131072 * i,
            decreases self.strings@.len() - i,
        {
            let ghost prefix = spec_str_lrg_views(self.strings@).take(i as int);
            proof {
                assert(self@.strings[i as int].len() <= 65535);
                crate::types_str::lemma_utf16_bytes_len(self.strings@[i as int]@);
                lemma_str_lrg_list_bytes_push(prefix, self.strings@[i as int]@);
                assert(spec_str_lrg_views(self.strings@).take(i + 1) =~= prefix.push(
                    self.strings@[i as int]@,
                ));
            }
            let c = self.strings[i].get_byte_count();
            sum = sum + c;
            i = i + 1;
        }
        proof {
            assert(spec_str_lrg_views(self.strings@).take(self.strings@.len() as int)
                =~= spec_str_lrg_views(self.strings@));
            crate::types_str::lemma_utf16_bytes_len(self.base.form_name@);
            assert(base_count <= 514);
            assert(self.languages@.len() <= 255);
            assert(sum <= 131072 * 255);
        }
        base_count + 1 + self.languages.len() + sum
    }

    /// Serializes the record: prefix, language count, codes, strings.
    pub fn to_bytes(&self) -> (r: Vec<u8>)
        requires
            self.wf(),
        ensures
            r@ == spec_form_bytes(FormModel::Str(self@)),
    {
        let mut out = self.base.to_bytes();
        out.push(self.languages.len() as u8);
        let ghost head = spec_form_base_bytes(self@.form_id, 0, self@.form_name) + seq![
            self@.languages.len() as u8,
        ];
        proof {
            assert(out@ =~= head);
        }
        let mut i: usize = 0;
        while i < self.languages.len()
            invariant
                i <= self.languages@.len(),
                self.wf(),
                out@ == head + spec_lang_list_bytes(self.languages@.take(i as int)),
            decreases self.languages@.len() - i,
        {
            out.push(self.languages[i].to_byte());
            proof {
                assert(spec_lang_list_bytes(self.languages@.take(i + 1))
                    =~= spec_lang_list_bytes(self.languages@.take(i as int)).push(
                    crate::types_misc::spec_lang_byte(self.languages@[i as int]),
                ));
                assert(out@ =~= head + spec_lang_list_bytes(self.languages@.take(i + 1)));
            }
            i = i + 1;
        }
        let ghost head2 = head + spec_lang_list_bytes(self.languages@);
        proof {
            assert(self.languages@.take(self.languages@.len() as int) =~= self.languages@);
        }
        let mut i: usize = 0;
        while i < self.strings.len()
            invariant
                i <= self.strings@.len(),
                self.wf(),
                out@ == head2 + spec_str_lrg_list_bytes(spec_str_lrg_views(self.strings@).take(
                    i as int,
                )),
            decreases self.strings@.len() - i,
        {
            let ghost prefix = spec_str_lrg_views(self.strings@).take(i as int);
            proof {
                assert(self@.strings[i as int].len() <= 65535);
            }
            let mut sb = self.strings[i].to_bytes();
            out.append(&mut sb);
            proof {
                lemma_str_lrg_list_bytes_push(prefix, self.strings@[i as int]@);
                assert(spec_str_lrg_views(self.strings@).take(i + 1) =~= prefix.push(
                    self.strings@[i as int]@,
                ));
                assert(out@ =~= head2 + spec_str_lrg_list_bytes(spec_str_lrg_views(
                    self.strings@,
                ).take(i + 1)));
            }
            i = i + 1;
        }
        proof {
            assert(spec_str_lrg_views(self.strings@).take(self.strings@.len() as int)
                =~= spec_str_lrg_views(self.strings@));
            assert(out@ =~= spec_form_bytes(FormModel::Str(self@)));
        }
        out
    }

    /// Reads one STRING record at `pos`; any malformed content, or a record
    /// of another type, is a corrupt-record error.
    #[verifier::loop_isolation(false)]
    pub(crate) fn read_at(bytes: &[u8], pos: usize) -> (r: Result<(FormString, usize), ArchiveError>)
        ensures
            ({
                match spec_parse_form_at(bytes@, pos as int) {
                    Some((FormModel::Str(m), end)) => r matches Ok(q) && q.0@ == m && q.1 == end
                        && q.0.wf(),
                    _ => r matches Err(e) && e == ArchiveError::Corrupt,
                }
            }),
    {
        proof {
            reveal(crate::form::spec_parse_form_at);
        }
        let blen = bytes.len();
        if blen < 3 || pos > blen - 3 {
            return Err(ArchiveError::Corrupt);
        }
        if bytes[pos + 2] != 0 {
            return Err(ArchiveError::Corrupt);
        }
        let id = FormID::from_bytes([bytes[pos], bytes[pos + 1]]);
        let (name, p1) = match read_str_sml_at(bytes, pos + 3) {
            Ok(v) => v,
            Err(_) => {
                return Err(ArchiveError::Corrupt);
            },
        };
        assert(p1 <= blen);
        if blen - p1 < 1 {
            return Err(ArchiveError::Corrupt);
        }
        let cnt = bytes[p1] as usize;
        if blen - (p1 + 1) < cnt {
            proof {
                assert(spec_parse_lang_list(bytes@, p1 + 1, cnt as int) is None);
            }
            return Err(ArchiveError::Corrupt);
        }
        let mut languages: Vec<LangCode> = Vec::new();
        let mut i: usize = 0;
        while i < cnt
            invariant
                i <= cnt,
                blen == bytes@.len(),
                p1 + 1 + cnt <= blen,
                languages@.len() == i,
                forall|k: int|
                    0 <= k < i ==> #[trigger] spec_lang_of_byte(bytes@[p1 + 1 + k]) == Some(
                        languages@[k],
                    ),
            decreases cnt - i,
        {
            match LangCode::from_byte(bytes[p1 + 1 + i]) {
                Some(l) => {
                    languages.push(l);
                },
                None => {
                    proof {
                        assert(spec_lang_of_byte(bytes@[p1 + 1 + i]) is None);
                        assert(spec_parse_lang_list(bytes@, p1 + 1, cnt as int) is None);
                    }
                    return Err(ArchiveError::Corrupt);
                },
            }
            i = i + 1;
        }
        proof {
            assert(!(exists|k: int|
                0 <= k < cnt && #[trigger] spec_lang_of_byte(bytes@[p1 + 1 + k]) is None));
            assert(spec_parse_lang_list(bytes@, p1 + 1, cnt as int).unwrap() =~= languages@);
        }
        let mut strings: Vec<StrLrg> = Vec::new();
        let mut p: usize = p1 + 1 + cnt;
        let ghost start = p as int;
        let mut i: usize = 0;
        while i < cnt
            invariant
                i <= cnt,
                blen == bytes@.len(),
                p <= blen,
                strings@.len() == i,
                forall|k: int| 0 <= k < i ==> (#[trigger] strings@[k]).wf(),
                spec_parse_str_lrg_list(bytes@, start, cnt as int) == (match spec_parse_str_lrg_list(
                    bytes@,
                    p as int,
                    cnt - i,
                ) {
                    Some(pr) => Some((spec_str_lrg_views(strings@) + pr.0, pr.1)),
                    None => None,
                }),
            decreases cnt - i,
        {
            let ghost views_before = spec_str_lrg_views(strings@);
            match read_str_lrg_at(bytes, p) {
                Ok((s, p2)) => {
                    proof {
                        let tail = spec_parse_str_lrg_list(bytes@, p2 as int, cnt - i - 1);
                        if tail is Some {
                            let pr = tail.unwrap();
                            assert(spec_parse_str_lrg_list(bytes@, p as int, cnt - i) == Some(
                                (seq![s@] + pr.0, pr.1),
                            ));
                            assert(spec_str_lrg_views(strings@.push(s)) =~= views_before.push(s@));
                            assert(views_before + (seq![s@] + pr.0) =~= views_before.push(s@)
                                + pr.0);
                        } else {
                            assert(spec_parse_str_lrg_list(bytes@, p as int, cnt - i) is None);
                        }
                    }
                    strings.push(s);
                    p = p2;
                },
                Err(_) => {
                    proof {
                        assert(spec_parse_str_lrg_list(bytes@, p as int, cnt - i) is None);
                        assert(spec_parse_str_lrg_list(bytes@, start, cnt as int) is None);
                    }
                    return Err(ArchiveError::Corrupt);
                },
            }
            i = i + 1;
        }
        proof {
            assert(spec_parse_str_lrg_list(bytes@, p as int, 0) == Some(
                (Seq::<Seq<u16>>::empty(), p as int),
            ));
            assert(spec_str_lrg_views(strings@) + Seq::<Seq<u16>>::empty() =~= spec_str_lrg_views(
                strings@,
            ));
            assert(spec_parse_str_lrg_list(bytes@, start, cnt as int) == Some(
                (spec_str_lrg_views(strings@), p as int),
            ));
        }
        let result = FormString {
            base: FormBase { form_id: id, form_type: FormType::STRING, form_name: name },
            languages,
            strings,
        };
        proof {
            let parsed = spec_parse_form_at(bytes@, pos as int).unwrap();
            assert(parsed.0 matches FormModel::Str(m) && result@ =~= m);
        }
        Ok((result, p))
    }

    /// Reads one STRING record from the front of the buffer, returning it
    /// and the number of bytes consumed.
    pub fn read_from_byte_buffer(bytes: &[u8]) -> (r: Result<(FormString, usize), ArchiveError>)
        ensures
            ({
                match spec_parse_form_at(bytes@, 0) {
                    Some((FormModel::Str(m), end)) => r matches Ok(q) && q.0@ == m && q.1 == end
                        && q.0.wf(),
                    _ => r matches Err(e) && e == ArchiveError::Corrupt,
                }
            }),
    {
        FormString::read_at(bytes, 0)
    }
}

} // verus!
