//! The WORLD form: a named record pointing at a world name, a map, and a
//! paired list of world parts and their anchor positions.
use vstd::prelude::*;

use crate::ArchiveError;
use crate::bytes::{push_u16_be, read_u16_be, spec_u16_from_be};
use crate::form::{
    lemma_gid_list_bytes_len, lemma_gid_list_bytes_push, lemma_vec3_list_bytes_len,
    lemma_vec3_list_bytes_push, spec_form_base_bytes, spec_form_bytes, spec_gid_list_bytes,
    spec_parse_form_at, spec_parse_gid_list, spec_parse_vec3_list, spec_vec3_list_bytes,
    form_model_wf, FormBase, FormModel, FormWorldModel,
};
use crate::form_refgroup::spec_gid_views;
use crate::types_id::{FormID, GlobalID};
use crate::types_misc::FormType;
use crate::types_str::{read_str_sml_at, StrSml};
use crate::types_vectors::{u32_to_i32, Vec3Int};
use crate::bytes::read_u32_be;

verus! {

/// The component triples of a list of integer vectors, in order.
pub open spec fn spec_vec3_views(v: Seq<Vec3Int>) -> Seq<(i32, i32, i32)> {
    Seq::new(v.len(), |i: int| v[i]@)
}

/// A record naming a world, its map, and its parts with anchor positions.
#[derive(Debug, PartialEq, Eq, Clone)]
pub struct FormWorld {
    pub base: FormBase,
    pub world_name_id: GlobalID,
    pub world_map: StrSml,
    pub world_parts: Vec<GlobalID>,
    pub world_part_anchors: Vec<Vec3Int>,
}

impl View for FormWorld {
    type V = FormWorldModel;

    open spec fn view(&self) -> FormWorldModel {
        FormWorldModel {
            form_id: self.base.form_id@,
            form_name: self.base.form_name@,
            world_name_id: self.world_name_id@,
            world_map: self.world_map@,
            world_parts: spec_gid_views(self.world_parts@),
            world_part_anchors: spec_vec3_views(self.world_part_anchors@),
        }
    }
}

impl FormWorld {
    /// Number of bytes for the part count.
    pub const BYTE_COUNT_PARTS_COUNT: usize = 2;

    /// The tag is WORLD, parts and anchors pair up, and every count fits
    /// its length prefix.
    pub open spec fn wf(self) -> bool {
        &&& self.base.form_type == FormType::WORLD
        &&& form_model_wf(FormModel::World(self@))
    }

    /// Builds a WORLD form; parts and anchors must pair up.
    pub fn new(
        form_id: FormID,
        form_name: StrSml,
        world_name_id: GlobalID,
        world_map: StrSml,
        world_parts: Vec<GlobalID>,
        world_part_anchors: Vec<Vec3Int>,
    ) -> (r: FormWorld)
        requires
            world_parts@.len() == world_part_anchors@.len(),
            world_parts@.len() <= 65535,
            form_name.wf(),
            world_map.wf(),
        ensures
            r@ == (FormWorldModel {
                form_id: form_id@,
                form_name: form_name@,
                world_name_id: world_name_id@,
                world_map: world_map@,
                world_parts: spec_gid_views(world_parts@),
                world_part_anchors: spec_vec3_views(world_part_anchors@),
            }),
            r.wf(),
    {
        FormWorld {
            base: FormBase { form_id, form_type: FormType::WORLD, form_name },
            world_name_id,
            world_map,
            world_parts,
            world_part_anchors,
        }
    }

    /// The serialized width of the whole record.
    pub fn get_byte_count(&self) -> (r: usize)
        requires
            self.wf(),
        ensures
            r == spec_form_bytes(FormModel::World(self@)).len(),
    {
        proof {
            crate::types_str::lemma_utf16_bytes_len(self.base.form_name@);
            crate::types_str::lemma_utf16_bytes_len(self.world_map@);
            lemma_gid_list_bytes_len(spec_gid_views(self.world_parts@));
            lemma_vec3_list_bytes_len(spec_vec3_views(self.world_part_anchors@));
        }
        self.base.get_byte_count() + 3 + self.world_map.get_byte_count() + 2 + 3
            * self.world_parts.len() + 12 * self.world_part_anchors.len()
    }

    /// Serializes the record: prefix, world name id, map, part count,
    /// parts, anchors.
    pub fn to_bytes(&self) -> (r: Vec<u8>)
        requires
            self.wf(),
        ensures
            r@ == spec_form_bytes(FormModel::World(self@)),
    {
        let mut out = self.base.to_bytes();
        let gb = self.world_name_id.to_bytes();
        out.push(gb[0]);
        out.push(gb[1]);
        out.push(gb[2]);
        let mut mb = self.world_map.to_bytes();
        out.append(&mut mb);
        push_u16_be(&mut out, self.world_parts.len() as u16);
        let ghost head = spec_form_base_bytes(self@.form_id, 1, self@.form_name)
            + crate::types_id::spec_global_id_bytes(self@.world_name_id)
            + crate::types_str::spec_str_sml_bytes(self@.world_map) + crate::bytes::spec_u16_be(
            self@.world_parts.len() as u16,
        );
        proof {
            assert(out@ =~= head);
        }
        let mut i: usize = 0;
        while i < self.world_parts.len()
            invariant
                i <= self.world_parts@.len(),
                self.wf(),
                out@ == head + spec_gid_list_bytes(spec_gid_views(self.world_parts@).take(
                    i as int,
                )),
            decreases self.world_parts@.len() - i,
        {
            let ghost prefix = spec_gid_views(self.world_parts@).take(i as int);
            let pb = self.world_parts[i].to_bytes();
            out.push(pb[0]);
            out.push(pb[1]);
            out.push(pb[2]);
            proof {
                lemma_gid_list_bytes_push(prefix, self.world_parts@[i as int]@);
                assert(spec_gid_views(self.world_parts@).take(i + 1) =~= prefix.push(
                    self.world_parts@[i as int]@,
                ));
                assert(out@ =~= head + spec_gid_list_bytes(spec_gid_views(self.world_parts@).take(
                    i + 1,
                )));
            }
            i = i + 1;
        }
        let ghost head2 = head + spec_gid_list_bytes(spec_gid_views(self.world_parts@));
        proof {
            assert(spec_gid_views(self.world_parts@).take(self.world_parts@.len() as int)
                =~= spec_gid_views(self.world_parts@));
        }
        let mut i: usize = 0;
        while i < self.world_part_anchors.len()
            invariant
                i <= self.world_part_anchors@.len(),
                self.wf(),
                out@ == head2 + spec_vec3_list_bytes(spec_vec3_views(
                    self.world_part_anchors@,
                ).take(i as int)),
            decreases self.world_part_anchors@.len() - i,
        {
            let ghost prefix = spec_vec3_views(self.world_part_anchors@).take(i as int);
            let mut ab = self.world_part_anchors[i].to_bytes();
            out.append(&mut ab);
            proof {
                lemma_vec3_list_bytes_push(prefix, self.world_part_anchors@[i as int]@);
                assert(spec_vec3_views(self.world_part_anchors@).take(i + 1) =~= prefix.push(
                    self.world_part_anchors@[i as int]@,
                ));
                assert(out@ =~= head2 + spec_vec3_list_bytes(spec_vec3_views(
                    self.world_part_anchors@,
                ).take(i + 1)));
            }
            i = i + 1;
        }
        proof {
            assert(spec_vec3_views(self.world_part_anchors@).take(
                self.world_part_anchors@.len() as int,
            ) =~= spec_vec3_views(self.world_part_anchors@));
            assert(out@ =~= spec_form_bytes(FormModel::World(self@)));
        }
        out
    }

    /// Reads one WORLD record at `pos`; any malformed content, or a record
    /// of another type, is a corrupt-record error.
    #[verifier::loop_isolation(false)]
    pub(crate) fn read_at(bytes: &[u8], pos: usize) -> (r: Result<(FormWorld, usize), ArchiveError>)
        ensures
            ({
                match spec_parse_form_at(bytes@, pos as int) {
                    Some((FormModel::World(m), end)) => r matches Ok(q) && q.0@ == m && q.1 == end
                        && q.0.wf(),
                    _ => r matches Err(e) && e == ArchiveError::Corrupt,
                }
            }),
    {
        proof {
            reveal(crate::form::spec_parse_form_at);
        }
        let blen = bytes.len();
        if blen < 3 || pos > blen - 3 {
            return Err(ArchiveError::Corrupt);
        }
        if bytes[pos + 2] != 1 {
            return Err(ArchiveError::Corrupt);
        }
        let id = FormID::from_bytes([bytes[pos], bytes[pos + 1]]);
        let (name, p1) = match read_str_sml_at(bytes, pos + 3) {
            Ok(v) => v,
            Err(_) => {
                return Err(ArchiveError::Corrupt);
            },
        };
        assert(p1 <= blen);
        if blen - p1 < 3 {
            return Err(ArchiveError::Corrupt);
        }
        let wnid = GlobalID::from_bytes([bytes[p1], bytes[p1 + 1], bytes[p1 + 2]]);
        let (world_map, p2) = match read_str_sml_at(bytes, p1 + 3) {
            Ok(v) => v,
            Err(_) => {
                return Err(ArchiveError::Corrupt);
            },
        };
        assert(p2 <= blen);
        if blen - p2 < 2 {
            return Err(ArchiveError::Corrupt);
        }
        let cnt = read_u16_be(bytes, p2) as usize;
        let o6 = p2 + 2;
        if (blen - o6) / 3 < cnt {
            proof {
                assert(spec_parse_gid_list(bytes@, o6 as int, cnt as int) is None);
            }
            return Err(ArchiveError::Corrupt);
        }
        let o7 = o6 + 3 * cnt;
        if (blen - o7) / 12 < cnt {
            proof {
                assert(spec_parse_vec3_list(bytes@, o7 as int, cnt as int) is None);
            }
            return Err(ArchiveError::Corrupt);
        }
        let mut parts: Vec<GlobalID> = Vec::new();
        let mut i: usize = 0;
        while i < cnt
            invariant
                i <= cnt,
                o6 + 3 * cnt <= blen,
                parts@.len() == i,
                forall|k: int|
                    0 <= k < i ==> (#[trigger] parts@[k])@ == (
                        bytes@[o6 + 3 * k],
                        spec_u16_from_be(bytes@[o6 + 3 * k + 1], bytes@[o6 + 3 * k + 2]),
                    ),
            decreases cnt - i,
        {
            let g = GlobalID::from_bytes(
                [bytes[o6 + 3 * i], bytes[o6 + 3 * i + 1], bytes[o6 + 3 * i + 2]],
            );
            parts.push(g);
            i = i + 1;
        }
        proof {
            assert(spec_parse_gid_list(bytes@, o6 as int, cnt as int) is Some);
            assert(spec_gid_views(parts@) =~= spec_parse_gid_list(
                bytes@,
                o6 as int,
                cnt as int,
            ).unwrap());
        }
        let mut anchors: Vec<Vec3Int> = Vec::new();
        let mut i: usize = 0;
        while i < cnt
            invariant
                i <= cnt,
                o7 == o6 + 3 * cnt,
                o7 + 12 * cnt <= blen,
                anchors@.len() == i,
                forall|k: int|
                    0 <= k < i ==> (#[trigger] anchors@[k])@ == (
                        crate::types_vectors::spec_u32_as_i32(
                            crate::bytes::spec_u32_from_be(
                                bytes@[o7 + 12 * k],
                                bytes@[o7 + 12 * k + 1],
                                bytes@[o7 + 12 * k + 2],
                                bytes@[o7 + 12 * k + 3],
                            ),
                        ),
                        crate::types_vectors::spec_u32_as_i32(
                            crate::bytes::spec_u32_from_be(
                                bytes@[o7 + 12 * k + 4],
                                bytes@[o7 + 12 * k + 5],
                                bytes@[o7 + 12 * k + 6],
                                bytes@[o7 + 12 * k + 7],
                            ),
                        ),
                        crate::types_vectors::spec_u32_as_i32(
                            crate::bytes::spec_u32_from_be(
                                bytes@[o7 + 12 * k + 8],
                                bytes@[o7 + 12 * k + 9],
                                bytes@[o7 + 12 * k + 10],
                                bytes@[o7 + 12 * k + 11],
                            ),
                        ),
                    ),
            decreases cnt - i,
        {
            let x = u32_to_i32(read_u32_be(bytes, o7 + 12 * i));
            let y = u32_to_i32(read_u32_be(bytes, o7 + 12 * i + 4));
            let z = u32_to_i32(read_u32_be(bytes, o7 + 12 * i + 8));
            anchors.push(Vec3Int::new(x, y, z));
            i = i + 1;
        }
        proof {
            assert(spec_parse_vec3_list(bytes@, o7 as int, cnt as int) is Some);
            assert(spec_vec3_views(anchors@) =~= spec_parse_vec3_list(
                bytes@,
                o7 as int,
                cnt as int,
            ).unwrap());
        }
        let result = FormWorld {
            base: FormBase { form_id: id, form_type: FormType::WORLD, form_name: name },
            world_name_id: wnid,
            world_map,
            world_parts: parts,
            world_part_anchors: anchors,
        };
        proof {
            let parsed = spec_parse_form_at(bytes@, pos as int).unwrap();
            assert(parsed.0 matches FormModel::World(m) && result@ =~= m);
        }
        Ok((result, o7 + 12 * cnt))
    }

    /// Reads one WORLD record from the front of the buffer, returning it and
    /// the number of bytes consumed.
    pub fn read_from_byte_buffer(bytes: &[u8]) -> (r: Result<(FormWorld, usize), ArchiveError>)
        ensures
            ({
                match spec_parse_form_at(bytes@, 0) {
                    Some((FormModel::World(m), end)) => r matches Ok(q) && q.0@ == m && q.1 == end
                        && q.0.wf(),
                    _ => r matches Err(e) && e == ArchiveError::Corrupt,
                }
            }),
    {
        FormWorld::read_at(bytes, 0)
    }
}

} // verus!
