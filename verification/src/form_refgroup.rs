//! The REFGROUP form: a named record holding references to other forms.
use vstd::prelude::*;

use crate::ArchiveError;
use crate::form::{
    lemma_gid_list_bytes_push, spec_form_base_bytes, spec_form_bytes, spec_gid_list_bytes,
    spec_parse_form_at, spec_parse_gid_list, form_model_wf, FormBase, FormModel, FormRefGroupModel,
    lemma_gid_list_bytes_len,
};
use crate::types_id::{FormID, GlobalID};
use crate::types_misc::FormType;
use crate::types_str::{read_str_sml_at, spec_parse_str_sml_at, StrSml};
use crate::bytes::read_u16_be;

verus! {

/// The identifier pairs of a list of global identifiers, in order.
pub open spec fn spec_gid_views(v: Seq<GlobalID>) -> Seq<(u8, u16)> {
    Seq::new(v.len(), |i: int| v[i]@)
}

/// A record holding references to other forms.
#[derive(Debug, PartialEq, Eq, Clone)]
pub struct FormRefGroup {
    pub base: FormBase,
    pub form_references: Vec<GlobalID>,
}

impl View for FormRefGroup {
    type V = FormRefGroupModel;

    open spec fn view(&self) -> FormRefGroupModel {
        FormRefGroupModel {
            form_id: self.base.form_id@,
            form_name: self.base.form_name@,
            form_references: spec_gid_views(self.form_references@),
        }
    }
}

impl FormRefGroup {
    /// Number of bytes for the reference count.
    pub const BYTE_COUNT_REFERENCES_COUNT: usize = 1;

    /// The tag is REFGROUP and every count fits its length prefix.
    pub open spec fn wf(self) -> bool {
        &&& self.base.form_type == FormType::REFGROUP
        &&& form_model_wf(FormModel::RefGroup(self@))
    }

    /// Builds a REFGROUP form from its identifier, name and references.
    pub fn new(form_id: FormID, form_name: StrSml, form_references: Vec<GlobalID>) -> (r:
        FormRefGroup)
        requires
            form_references@.len() <= 255,
            form_name.wf(),
        ensures
            r@ == (FormRefGroupModel {
                form_id: form_id@,
                form_name: form_name@,
                form_references: spec_gid_views(form_references@),
            }),
            r.wf(),
    {
        FormRefGroup {
            base: FormBase { form_id, form_type: FormType::REFGROUP, form_name },
            form_references,
        }
    }

    /// The serialized width of the whole record.
    pub fn get_byte_count(&self) -> (r: usize)
        requires
            self.wf(),
        ensures
            r == spec_form_bytes(FormModel::RefGroup(self@)).len(),
    {
        proof {
            crate::types_str::lemma_utf16_bytes_len(self.base.form_name@);
            lemma_gid_list_bytes_len(spec_gid_views(self.form_references@));
        }
        self.base.get_byte_count() + 1 + 3 * self.form_references.len()
    }

    /// Serializes the record: prefix, reference count, references.
    pub fn to_bytes(&self) -> (r: Vec<u8>)
        requires
            self.wf(),
        ensures
            r@ == spec_form_bytes(FormModel::RefGroup(self@)),
    {
        let mut out = self.base.to_bytes();
        out.push(self.form_references.len() as u8);
        let ghost head = spec_form_base_bytes(self@.form_id, 2, self@.form_name) + seq![
            self@.form_references.len() as u8,
        ];
        proof {
            assert(out@ =~= head);
        }
        let mut i: usize = 0;
        while i < self.form_references.len()
            invariant
                i <= self.form_references@.len(),
                self.wf(),
                out@ == head + spec_gid_list_bytes(spec_gid_views(self.form_references@).take(
                    i as int,
                )),
            decreases self.form_references@.len() - i,
        {
            let ghost prefix = spec_gid_views(self.form_references@).take(i as int);
            let gb = self.form_references[i].to_bytes();
            out.push(gb[0]);
            out.push(gb[1]);
            out.push(gb[2]);
            proof {
                lemma_gid_list_bytes_push(prefix, self.form_references@[i as int]@);
                assert(spec_gid_views(self.form_references@).take(i + 1) =~= prefix.push(
                    self.form_references@[i as int]@,
                ));
                assert(out@ =~= head + spec_gid_list_bytes(spec_gid_views(
                    self.form_references@,
                ).take(i + 1)));
            }
            i = i + 1;
        }
        proof {
            assert(spec_gid_views(self.form_references@).take(self.form_references@.len() as int)
                =~= spec_gid_views(self.form_references@));
            assert(out@ =~= spec_form_bytes(FormModel::RefGroup(self@)));
        }
        out
    }

    /// Reads one REFGROUP record at `pos`; any malformed content, or a
    /// record of another type, is a corrupt-record error.
    #[verifier::loop_isolation(false)]
    pub(crate) fn read_at(bytes: &[u8], pos: usize) -> (r: Result<
        (FormRefGroup, usize),
        ArchiveError,
    >)
        ensures
            ({
                match spec_parse_form_at(bytes@, pos as int) {
                    Some((FormModel::RefGroup(m), end)) => r matches Ok(q) && q.0@ == m && q.1
                        == end && q.0.wf(),
                    _ => r matches Err(e) && e == ArchiveError::Corrupt,
                }
            }),
    {
        proof {
            reveal(crate::form::spec_parse_form_at);
        }
        let blen = bytes.len();
        if blen < 3 || pos > blen - 3 {
            return Err(ArchiveError::Corrupt);
        }
        if bytes[pos + 2] != 2 {
            return Err(ArchiveError::Corrupt);
        }
        let id = FormID::from_bytes([bytes[pos], bytes[pos + 1]]);
        let (name, p1) = match read_str_sml_at(bytes, pos + 3) {
            Ok(v) => v,
            Err(_) => {
                return Err(ArchiveError::Corrupt);
            },
        };
        assert(p1 <= blen);
        if blen - p1 < 1 {
            return Err(ArchiveError::Corrupt);
        }
        let cnt = bytes[p1] as usize;
        if (blen - (p1 + 1)) / 3 < cnt {
            proof {
                assert(spec_parse_gid_list(bytes@, p1 + 1, cnt as int) is None);
            }
            return Err(ArchiveError::Corrupt);
        }
        let mut refs: Vec<GlobalID> = Vec::new();
        let mut i: usize = 0;
        while i < cnt
            invariant
                i <= cnt,
                p1 + 1 + 3 * cnt <= blen,
                refs@.len() == i,
                forall|k: int|
                    0 <= k < i ==> (#[trigger] refs@[k])@ == (
                        bytes@[p1 + 1 + 3 * k],
                        crate::bytes::spec_u16_from_be(
                            bytes@[p1 + 1 + 3 * k + 1],
                            bytes@[p1 + 1 + 3 * k + 2],
                        ),
                    ),
            decreases cnt - i,
        {
            let g = GlobalID::from_bytes(
                [bytes[p1 + 1 + 3 * i], bytes[p1 + 1 + 3 * i + 1], bytes[p1 + 1 + 3 * i + 2]],
            );
            refs.push(g);
            i = i + 1;
        }
        proof {
            assert(spec_parse_gid_list(bytes@, p1 + 1, cnt as int) is Some);
            assert(spec_gid_views(refs@) =~= spec_parse_gid_list(
                bytes@,
                p1 + 1,
                cnt as int,
            ).unwrap());
        }
        let result = FormRefGroup {
            base: FormBase { form_id: id, form_type: FormType::REFGROUP, form_name: name },
            form_references: refs,
        };
        proof {
            let parsed = spec_parse_form_at(bytes@, pos as int).unwrap();
            assert(parsed.0 matches FormModel::RefGroup(m) && result@ =~= m);
        }
        Ok((result, p1 + 1 + 3 * cnt))
    }

    /// Reads one REFGROUP record from the front of the buffer, returning it
    /// and the number of bytes consumed.
    pub fn read_from_byte_buffer(bytes: &[u8]) -> (r: Result<(FormRefGroup, usize), ArchiveError>)
        ensures
            ({
                match spec_parse_form_at(bytes@, 0) {
                    Some((FormModel::RefGroup(m), end)) => r matches Ok(q) && q.0@ == m && q.1
                        == end && q.0.wf(),
                    _ => r matches Err(e) && e == ArchiveError::Corrupt,
                }
            }),
    {
        FormRefGroup::read_at(bytes, 0)
    }
}

} // verus!
