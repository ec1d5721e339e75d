//! A self-contained router: full matrices held in memory, useful as a mock
//! backend and as the reference implementation of the router contract.
use vstd::prelude::*;

verus! {

use crate::matrix::{
    RouterInfo,
    RouterMatrixInfo,
    RouterLabel,
    RouterPatch,
    RouterError,
    RouterEvent,
    RouterLabelV,
    rlabels_view,
};
use crate::text::{ascii_bytes, push_dec, bytes_of, dec_repr};

/// Apply sparse label changes to a full row where each id is its position.
pub open spec fn apply_label_changes(cur: Seq<RouterLabelV>, cs: Seq<RouterLabelV>) -> Seq<
    RouterLabelV,
>
    decreases cs.len(),
{
    if cs.len() == 0 {
        cur
    } else {
        let c = cs[0];
        apply_label_changes(
            cur.update(c.id as int, RouterLabelV { id: c.id, name: c.name }),
            cs.drop_first(),
        )
    }
}

/// Apply sparse patches to a full row where each output is its position.
pub open spec fn apply_patch_changes(cur: Seq<RouterPatch>, cs: Seq<RouterPatch>) -> Seq<
    RouterPatch,
>
    decreases cs.len(),
{
    if cs.len() == 0 {
        cur
    } else {
        let c = cs[0];
        apply_patch_changes(
            cur.update(c.to_output as int, RouterPatch { from_input: c.from_input, to_output: c.to_output }),
            cs.drop_first(),
        )
    }
}


/// Folding one more patch at the end updates that patch's output.
pub proof fn lemma_apply_patch_changes_snoc(cur: Seq<RouterPatch>, cs: Seq<RouterPatch>, c: RouterPatch)
    ensures
        apply_patch_changes(cur, cs.push(c)) == apply_patch_changes(cur, cs).update(
            c.to_output as int,
            RouterPatch { from_input: c.from_input, to_output: c.to_output },
        ),
    decreases cs.len(),
{
    if cs.len() == 0 {
        assert(cs.push(c)[0] == c);
        assert(cs.push(c).drop_first() =~= Seq::<RouterPatch>::empty());
        assert(apply_patch_changes(
            cur.update(c.to_output as int, RouterPatch { from_input: c.from_input, to_output: c.to_output }),
            Seq::<RouterPatch>::empty(),
        ) == cur.update(c.to_output as int, RouterPatch { from_input: c.from_input, to_output: c.to_output }));
    } else {
        assert(cs.push(c)[0] == cs[0]);
        assert(cs.push(c).drop_first() =~= cs.drop_first().push(c));
        lemma_apply_patch_changes_snoc(
            cur.update(
                cs[0].to_output as int,
                RouterPatch { from_input: cs[0].from_input, to_output: cs[0].to_output },
            ),
            cs.drop_first(),
            c,
        );
    }
}

/// Folding one more label change at the end updates that change's slot.
pub proof fn lemma_apply_label_changes_snoc(cur: Seq<RouterLabelV>, cs: Seq<RouterLabelV>, c: RouterLabelV)
    ensures
        apply_label_changes(cur, cs.push(c)) == apply_label_changes(cur, cs).update(
            c.id as int,
            RouterLabelV { id: c.id, name: c.name },
        ),
    decreases cs.len(),
{
    if cs.len() == 0 {
        assert(cs.push(c)[0] == c);
        assert(cs.push(c).drop_first() =~= Seq::<RouterLabelV>::empty());
        assert(apply_label_changes(
            cur.update(c.id as int, RouterLabelV { id: c.id, name: c.name }),
            Seq::<RouterLabelV>::empty(),
        ) == cur.update(c.id as int, RouterLabelV { id: c.id, name: c.name }));
    } else {
        assert(cs.push(c)[0] == cs[0]);
        assert(cs.push(c).drop_first() =~= cs.drop_first().push(c));
        lemma_apply_label_changes_snoc(
            cur.update(cs[0].id as int, RouterLabelV { id: cs[0].id, name: cs[0].name }),
            cs.drop_first(),
            c,
        );
    }
}

/// A complete in-memory router.
#[derive(Clone, Debug)]
pub struct DummyRouter {
    pub alive: bool,
    pub info: RouterInfo,
    pub matrix_info: Vec<RouterMatrixInfo>,
    pub input_labels: Vec<Vec<RouterLabel>>,
    pub output_labels: Vec<Vec<RouterLabel>>,
    pub routes: Vec<Vec<RouterPatch>>,
}

impl DummyRouter {
    /// Every matrix is fully populated: one label per port, ids in position,
    /// one patch per output bound to a valid input.
    pub open spec fn wf(&self) -> bool {
        &&& self.matrix_info.len() == self.input_labels.len()
        &&& self.matrix_info.len() == self.output_labels.len()
        &&& self.matrix_info.len() == self.routes.len()
        &&& forall|m: int|
            0 <= m < self.matrix_info.len() ==> {
                &&& (#[trigger] self.input_labels@[m])@.len() == self.matrix_info@[m].input_count
                &&& self.output_labels@[m]@.len() == self.matrix_info@[m].output_count
                &&& self.routes@[m]@.len() == self.matrix_info@[m].output_count
                &&& forall|i: int|
                    0 <= i < self.input_labels@[m]@.len() ==> (
                    #[trigger] self.input_labels@[m]@[i]).id == i
                &&& forall|i: int|
                    0 <= i < self.output_labels@[m]@.len() ==> (
                    #[trigger] self.output_labels@[m]@[i]).id == i
                &&& forall|i: int|
                    0 <= i < self.routes@[m]@.len() ==> (#[trigger] self.routes@[m]@[i]).to_output
                        == i && self.routes@[m]@[i].from_input
                        < self.matrix_info@[m].input_count
            }
    }

    pub open spec fn spec_matrix_count(&self) -> int {
        self.matrix_info.len() as int
    }

    /// A router with `matrix_count` matrices, all of the same dimensions,
    /// every output patched from input 0.
    pub fn with_config(matrix_count: usize, input_count: usize, output_count: usize) -> (r:
        DummyRouter)
        requires
            matrix_count <= u32::MAX,
            input_count <= u32::MAX,
            output_count <= u32::MAX,
            input_count > 0 || output_count == 0,
        ensures
            r.wf(),
            r.spec_matrix_count() == matrix_count,
            forall|m: int|
                0 <= m < matrix_count ==> #[trigger] r.matrix_info@[m] == (RouterMatrixInfo {
                    input_count: input_count as u32,
                    output_count: output_count as u32,
                }),
            r.is_alive_spec(),
            r.info@.model == Some(bytes_of("DummyRouter"@)),
            r.info@.name is None,
            r.info@.matrix_count == Some(matrix_count as u32),
            forall|m: int, q: int|
                0 <= m < matrix_count && 0 <= q < input_count ==> (
                #[trigger] r.input_labels@[m]@[q]).name@ == bytes_of("Input "@) + dec_repr(
                    (q + 1) as nat,
                ),
            forall|m: int, q: int|
                0 <= m < matrix_count && 0 <= q < output_count ==> (
                #[trigger] r.output_labels@[m]@[q]).name@ == bytes_of("Output "@) + dec_repr(
                    (q + 1) as nat,
                ),
            forall|m: int, q: int|
                0 <= m < matrix_count && 0 <= q < output_count ==> (
                #[trigger] r.routes@[m]@[q]) == (RouterPatch {
                    from_input: 0u32,
                    to_output: q as u32,
                }),
    {
        let mut input_labels_row: Vec<RouterLabel> = Vec::new();
        let mut i: usize = 0;
        while i < input_count
            invariant
                i <= input_count <= u32::MAX,
                input_labels_row.len() == i,
                forall|q: int|
                    0 <= q < i ==> (#[trigger] input_labels_row@[q]).id == q
                        && input_labels_row@[q].name@ == bytes_of("Input "@) + dec_repr(
                        (q + 1) as nat,
                    ),
            decreases input_count - i,
        {
            proof {
                reveal_strlit("Input ");
            }
            let mut name = ascii_bytes("Input ");
            push_dec((i + 1) as u32, &mut name);
            input_labels_row.push(RouterLabel { id: i as u32, name });
            i = i + 1;
        }
        let mut output_labels_row: Vec<RouterLabel> = Vec::new();
        let mut j: usize = 0;
        while j < output_count
            invariant
                j <= output_count <= u32::MAX,
                output_labels_row.len() == j,
                forall|q: int|
                    0 <= q < j ==> (#[trigger] output_labels_row@[q]).id == q
                        && output_labels_row@[q].name@ == bytes_of("Output "@) + dec_repr(
                        (q + 1) as nat,
                    ),
            decreases output_count - j,
        {
            proof {
                reveal_strlit("Output ");
            }
            let mut name = ascii_bytes("Output ");
            push_dec((j + 1) as u32, &mut name);
            output_labels_row.push(RouterLabel { id: j as u32, name });
            j = j + 1;
        }
        let mut patches_row: Vec<RouterPatch> = Vec::new();
        let mut k: usize = 0;
        while k < output_count
            invariant
                k <= output_count <= u32::MAX,
                patches_row.len() == k,
                forall|q: int|
                    0 <= q < k ==> (#[trigger] patches_row@[q]).to_output == q
                        && patches_row@[q].from_input == 0,
            decreases output_count - k,
        {
            patches_row.push(RouterPatch { from_input: 0, to_output: k as u32 });
            k = k + 1;
        }
        let mi = RouterMatrixInfo {
            input_count: input_count as u32,
            output_count: output_count as u32,
        };
        let mut matrix_info: Vec<RouterMatrixInfo> = Vec::new();
        let mut input_labels: Vec<Vec<RouterLabel>> = Vec::new();
        let mut output_labels: Vec<Vec<RouterLabel>> = Vec::new();
        let mut routes: Vec<Vec<RouterPatch>> = Vec::new();
        let mut m: usize = 0;
        while m < matrix_count
            invariant
                m <= matrix_count,
                input_count <= u32::MAX,
                output_count <= u32::MAX,
                matrix_info.len() == m,
                input_labels.len() == m,
                output_labels.len() == m,
                routes.len() == m,
                input_labels_row.len() == input_count,
                output_labels_row.len() == output_count,
                patches_row.len() == output_count,
                forall|q: int|
                    0 <= q < input_labels_row.len() ==> (#[trigger] input_labels_row@[q]).id == q
                        && input_labels_row@[q].name@ == bytes_of("Input "@) + dec_repr(
                        (q + 1) as nat,
                    ),
                forall|q: int|
                    0 <= q < output_labels_row.len() ==> (#[trigger] output_labels_row@[q]).id
                        == q && output_labels_row@[q].name@ == bytes_of("Output "@) + dec_repr(
                        (q + 1) as nat,
                    ),
                forall|q: int|
                    0 <= q < patches_row.len() ==> (#[trigger] patches_row@[q]).to_output == q
                        && patches_row@[q].from_input == 0,
                forall|q: int|
                    0 <= q < m ==> #[trigger] matrix_info@[q] == mi,
                forall|q: int|
                    0 <= q < m ==> rlabels_view((#[trigger] input_labels@[q])@) == rlabels_view(
                        input_labels_row@,
                    ),
                forall|q: int|
                    0 <= q < m ==> rlabels_view((#[trigger] output_labels@[q])@) == rlabels_view(
                        output_labels_row@,
                    ),
                forall|q: int|
                    0 <= q < m ==> (#[trigger] routes@[q])@ == patches_row@,
            decreases matrix_count - m,
        {
            matrix_info.push(mi);
            input_labels.push(clone_labels(&input_labels_row));
            output_labels.push(clone_labels(&output_labels_row));
            routes.push(clone_patches(&patches_row));
            m = m + 1;
        }
        proof {
            reveal_strlit("DummyRouter");
        }
        let model = ascii_bytes("DummyRouter");
        let info = RouterInfo {
            model: Some(model),
            name: None,
            matrix_count: Some(matrix_count as u32),
        };
        let r = DummyRouter { alive: true, info, matrix_info, input_labels, output_labels, routes };
        proof {
            assert forall|mm: int| 0 <= mm < r.matrix_info.len() implies {
                &&& (#[trigger] r.input_labels@[mm])@.len() == r.matrix_info@[mm].input_count
                &&& r.output_labels@[mm]@.len() == r.matrix_info@[mm].output_count
                &&& r.routes@[mm]@.len() == r.matrix_info@[mm].output_count
                &&& forall|i: int|
                    0 <= i < r.input_labels@[mm]@.len() ==> (
                    #[trigger] r.input_labels@[mm]@[i]).id == i
                &&& forall|i: int|
                    0 <= i < r.output_labels@[mm]@.len() ==> (
                    #[trigger] r.output_labels@[mm]@[i]).id == i
                &&& forall|i: int|
                    0 <= i < r.routes@[mm]@.len() ==> (#[trigger] r.routes@[mm]@[i]).to_output
                        == i && r.routes@[mm]@[i].from_input < r.matrix_info@[mm].input_count
            } by {
                assert(rlabels_view(r.input_labels@[mm]@) == rlabels_view(input_labels_row@));
                assert(rlabels_view(r.output_labels@[mm]@) == rlabels_view(output_labels_row@));
                assert forall|i: int| 0 <= i < r.input_labels@[mm]@.len() implies (
                #[trigger] r.input_labels@[mm]@[i]).id == i by {
                    assert(rlabels_view(r.input_labels@[mm]@)[i] == r.input_labels@[mm]@[i]@);
                    assert(rlabels_view(input_labels_row@)[i] == input_labels_row@[i]@);
                }
                assert forall|i: int| 0 <= i < r.output_labels@[mm]@.len() implies (
                #[trigger] r.output_labels@[mm]@[i]).id == i by {
                    assert(rlabels_view(r.output_labels@[mm]@)[i] == r.output_labels@[mm]@[i]@);
                    assert(rlabels_view(output_labels_row@)[i] == output_labels_row@[i]@);
                }
                assert(rlabels_view(r.input_labels@[mm]@).len() == rlabels_view(
                    input_labels_row@,
                ).len());
                assert(rlabels_view(r.output_labels@[mm]@).len() == rlabels_view(
                    output_labels_row@,
                ).len());
            }
            assert forall|mm: int, q: int|
                0 <= mm < matrix_count && 0 <= q < input_count implies (
            #[trigger] r.input_labels@[mm]@[q]).name@ == bytes_of("Input "@) + dec_repr(
                (q + 1) as nat,
            ) by {
                assert(rlabels_view(r.input_labels@[mm]@) == rlabels_view(input_labels_row@));
                assert(rlabels_view(r.input_labels@[mm]@)[q] == r.input_labels@[mm]@[q]@);
                assert(rlabels_view(input_labels_row@)[q] == input_labels_row@[q]@);
            }
            assert forall|mm: int, q: int|
                0 <= mm < matrix_count && 0 <= q < output_count implies (
            #[trigger] r.output_labels@[mm]@[q]).name@ == bytes_of("Output "@) + dec_repr(
                (q + 1) as nat,
            ) by {
                assert(rlabels_view(r.output_labels@[mm]@) == rlabels_view(output_labels_row@));
                assert(rlabels_view(r.output_labels@[mm]@)[q] == r.output_labels@[mm]@[q]@);
                assert(rlabels_view(output_labels_row@)[q] == output_labels_row@[q]@);
            }
            assert forall|mm: int, q: int|
                0 <= mm < matrix_count && 0 <= q < output_count implies (
            #[trigger] r.routes@[mm]@[q]) == (RouterPatch {
                from_input: 0u32,
                to_output: q as u32,
            }) by {
                assert(r.routes@[mm]@ == patches_row@);
            }
        }
        r
    }

    /// The default single 16 by 16 matrix.
    pub fn new() -> (r: DummyRouter)
        ensures
            r.wf(),
            r.spec_matrix_count() == 1,
    {
        DummyRouter::with_config(1, 16, 16)
    }

    /// Replace the static identity.
    pub fn set_info(&mut self, info: RouterInfo)
        ensures
            final(self).info == info,
            final(self).matrix_info == old(self).matrix_info,
            final(self).input_labels == old(self).input_labels,
            final(self).output_labels == old(self).output_labels,
            final(self).routes == old(self).routes,
            old(self).wf() ==> final(self).wf(),
    {
        self.info = info;
    }

    /// Whether the matrix index is in range.
    pub fn validate_index(&self, index: u32) -> (r: bool)
        ensures
            r == (index < self.matrix_info.len()),
    {
        (index as usize) < self.matrix_info.len()
    }

    pub fn is_alive(&self) -> (r: bool)
        ensures
            r == self.is_alive_spec(),
    {
        self.alive
    }

    pub open spec fn is_alive_spec(&self) -> bool {
        self.alive
    }

    pub fn get_router_info(&self) -> (r: RouterInfo)
        ensures
            r@ == self.info@,
    {
        clone_info(&self.info)
    }

    pub fn get_matrix_info(&self, index: u32) -> (r: Result<RouterMatrixInfo, RouterError>)
        ensures
            match r {
                Ok(mi) => index < self.matrix_info.len() && mi == self.matrix_info@[index as int],
                Err(e) => e == RouterError::OutOfRange && index >= self.matrix_info.len(),
            },
    {
        if (index as usize) < self.matrix_info.len() {
            Ok(self.matrix_info[index as usize])
        } else {
            Err(RouterError::OutOfRange)
        }
    }

    pub fn get_input_labels(&self, index: u32) -> (r: Result<Vec<RouterLabel>, RouterError>)
        requires
            self.wf(),
        ensures
            match r {
                Ok(v) => index < self.matrix_info.len() && rlabels_view(v@) == rlabels_view(
                    self.input_labels@[index as int]@,
                ),
                Err(e) => e == RouterError::OutOfRange && index >= self.matrix_info.len(),
            },
    {
        if (index as usize) < self.matrix_info.len() {
            Ok(clone_labels(&self.input_labels[index as usize]))
        } else {
            Err(RouterError::OutOfRange)
        }
    }

    pub fn get_output_labels(&self, index: u32) -> (r: Result<Vec<RouterLabel>, RouterError>)
        requires
            self.wf(),
        ensures
            match r {
                Ok(v) => index < self.matrix_info.len() && rlabels_view(v@) == rlabels_view(
                    self.output_labels@[index as int]@,
                ),
                Err(e) => e == RouterError::OutOfRange && index >= self.matrix_info.len(),
            },
    {
        if (index as usize) < self.matrix_info.len() {
            Ok(clone_labels(&self.output_labels[index as usize]))
        } else {
            Err(RouterError::OutOfRange)
        }
    }

    pub fn get_routes(&self, index: u32) -> (r: Result<Vec<RouterPatch>, RouterError>)
        requires
            self.wf(),
        ensures
            match r {
                Ok(v) => index < self.matrix_info.len() && v@ == self.routes@[index as int]@,
                Err(e) => e == RouterError::OutOfRange && index >= self.matrix_info.len(),
            },
    {
        if (index as usize) < self.matrix_info.len() {
            Ok(clone_patches(&self.routes[index as usize]))
        } else {
            Err(RouterError::OutOfRange)
        }
    }

    /// Merge sparse input-label changes into matrix `index` and report the event
    /// to broadcast. Out-of-range coordinates reject the whole update.
    pub fn update_input_labels(&mut self, index: u32, changed: Vec<RouterLabel>) -> (r: Result<
        Option<RouterEvent>,
        RouterError,
    >)
        requires
            old(self).wf(),
        ensures
            final(self).wf(),
            match r {
                Ok(ev) => {
                    &&& index < old(self).matrix_info.len()
                    &&& forall|i: int|
                        0 <= i < changed@.len() ==> (#[trigger] changed@[i]).id < old(
                            self,
                        ).matrix_info@[index as int].input_count
                    &&& rlabels_view(final(self).input_labels@[index as int]@) == apply_label_changes(
                        rlabels_view(old(self).input_labels@[index as int]@),
                        rlabels_view(changed@),
                    )
                    &&& final(self).matrix_info == old(self).matrix_info
                    &&& final(self).output_labels@ =~= old(self).output_labels@
                    &&& final(self).routes@ =~= old(self).routes@
                    &&& final(self).input_labels@.len() == old(self).input_labels@.len()
                    &&& final(self).output_labels@.len() == old(self).output_labels@.len()
                    &&& final(self).info == old(self).info
                    &&& final(self).alive == old(self).alive
                    &&& forall|m: int|
                        0 <= m < old(self).input_labels@.len() && m != index ==> (
                        #[trigger] final(self).input_labels@[m]) == old(self).input_labels@[m]
                    &&& match ev {
                        Some(RouterEvent::InputLabelUpdate(ix, ls)) => ix == index && changed@.len() > 0
                            && rlabels_view(ls@) == rlabels_view(
                            final(self).input_labels@[index as int]@,
                        ),
                        None => changed@.len() == 0,
                        _ => false,
                    }
                },
                Err(e) => e == RouterError::OutOfRange && *final(self) == *old(self) && (index
                    >= old(self).matrix_info.len() || exists|i: int|
                    0 <= i < changed@.len() && (#[trigger] changed@[i]).id >= old(
                        self,
                    ).matrix_info@[index as int].input_count),
            },
    {
        if (index as usize) >= self.matrix_info.len() {
            return Err(RouterError::OutOfRange);
        }
        let idx = index as usize;
        let bound = self.matrix_info[idx].input_count;
        let mut i: usize = 0;
        while i < changed.len()
            invariant
                i <= changed@.len(),
                idx == index as usize,
                old(self).wf(),
                *self == *old(self),
                bound == self.matrix_info@[idx as int].input_count,
                forall|q: int| 0 <= q < i ==> (#[trigger] changed@[q]).id < bound,
            decreases changed.len() - i,
        {
            if changed[i].id >= bound {
                proof {
                    assert(0 <= i < changed@.len() && (#[trigger] changed@[i as int]).id >= old(
                        self,
                    ).matrix_info@[index as int].input_count);
                    assert(exists|q: int|
                        0 <= q < changed@.len() && (#[trigger] changed@[q]).id >= old(
                            self,
                        ).matrix_info@[index as int].input_count);
                }
                return Err(RouterError::OutOfRange);
            }
            i = i + 1;
        }
        let ghost origv = rlabels_view(self.input_labels@[idx as int]@);
        let ghost csv = rlabels_view(changed@);
        let mut row = clone_labels(&self.input_labels[idx]);
        let mut j: usize = 0;
        proof {
            assert(csv.skip(0) =~= csv);
            assert((self.input_labels@[idx as int])@.len() == self.matrix_info@[idx as int].input_count);
            assert(rlabels_view(row@) == origv);
            assert forall|q: int| 0 <= q < row@.len() implies (#[trigger] row@[q]).id == q by {
                assert(rlabels_view(row@)[q] == row@[q]@);
                assert(origv[q] == self.input_labels@[idx as int]@[q]@);
                assert((self.input_labels@[idx as int])@[q].id == q);
            }
        }
        while j < changed.len()
            invariant
                j <= changed@.len(),
                old(self).wf(),
                *self == *old(self),
                csv == rlabels_view(changed@),
                bound == self.matrix_info@[idx as int].input_count,
                row@.len() == self.input_labels@[idx as int]@.len(),
                row@.len() == bound,
                forall|q: int| 0 <= q < changed@.len() ==> (#[trigger] changed@[q]).id < bound,
                forall|q: int| 0 <= q < row@.len() ==> (#[trigger] row@[q]).id == q,
                apply_label_changes(origv, csv) == apply_label_changes(
                    rlabels_view(row@),
                    csv.skip(j as int),
                ),
                (idx as int) < self.input_labels@.len(),
                self.wf(),
            decreases changed.len() - j,
        {
            let cid = changed[j].id as usize;
            let name = clone_bytes(&changed[j].name);
            let ghost prev = rlabels_view(row@);
            let ghost prevrow = row@;
            row[cid] = RouterLabel { id: changed[j].id, name };
            proof {
                assert(rlabels_view(row@) =~= prev.update(
                    changed@[j as int].id as int,
                    RouterLabelV {
                        id: changed@[j as int].id,
                        name: changed@[j as int].name@,
                    },
                ));
                assert(csv.skip(j as int)[0] == csv[j as int]);
                assert(csv.skip(j as int).drop_first() =~= csv.skip(j as int + 1));
                assert forall|q: int| 0 <= q < row@.len() implies (#[trigger] row@[q]).id
                    == q by {
                    if q != cid {
                        assert(row@[q] == prevrow[q]);
                    }
                }
            }
            j = j + 1;
        }
        proof {
            assert(csv.skip(changed@.len() as int) =~= Seq::<RouterLabelV>::empty());
        }
        let ev = if changed.len() > 0 {
            Some(RouterEvent::InputLabelUpdate(index, clone_labels(&row)))
        } else {
            None
        };
        self.input_labels[idx] = row;
        proof {
            assert forall|m: int|
                0 <= m < self.matrix_info.len() implies {
                &&& (#[trigger] self.input_labels@[m])@.len()
                    == self.matrix_info@[m].input_count
                &&& self.output_labels@[m]@.len() == self.matrix_info@[m].output_count
                &&& self.routes@[m]@.len() == self.matrix_info@[m].output_count
                &&& forall|i2: int|
                    0 <= i2 < self.input_labels@[m]@.len() ==> (
                    #[trigger] self.input_labels@[m]@[i2]).id == i2
                &&& forall|i2: int|
                    0 <= i2 < self.output_labels@[m]@.len() ==> (
                    #[trigger] self.output_labels@[m]@[i2]).id == i2
                &&& forall|i2: int|
                    0 <= i2 < self.routes@[m]@.len() ==> (
                    #[trigger] self.routes@[m]@[i2]).to_output == i2
                        && self.routes@[m]@[i2].from_input < self.matrix_info@[m].input_count
            } by {
                if m != idx {
                    assert(self.input_labels@[m] == old(self).input_labels@[m]);
                }
            }
        }
        Ok(ev)
    }

    /// Merge sparse output-label changes into matrix `index` and report the event
    /// to broadcast. Out-of-range coordinates reject the whole update.
    pub fn update_output_labels(&mut self, index: u32, changed: Vec<RouterLabel>) -> (r: Result<
        Option<RouterEvent>,
        RouterError,
    >)
        requires
            old(self).wf(),
        ensures
            final(self).wf(),
            match r {
                Ok(ev) => {
                    &&& index < old(self).matrix_info.len()
                    &&& forall|i: int|
                        0 <= i < changed@.len() ==> (#[trigger] changed@[i]).id < old(
                            self,
                        ).matrix_info@[index as int].output_count
                    &&& rlabels_view(final(self).output_labels@[index as int]@) == apply_label_changes(
                        rlabels_view(old(self).output_labels@[index as int]@),
                        rlabels_view(changed@),
                    )
                    &&& final(self).matrix_info == old(self).matrix_info
                    &&& final(self).input_labels@ =~= old(self).input_labels@
                    &&& final(self).routes@ =~= old(self).routes@
                    &&& final(self).input_labels@.len() == old(self).input_labels@.len()
                    &&& final(self).output_labels@.len() == old(self).output_labels@.len()
                    &&& final(self).info == old(self).info
                    &&& final(self).alive == old(self).alive
                    &&& forall|m: int|
                        0 <= m < old(self).output_labels@.len() && m != index ==> (
                        #[trigger] final(self).output_labels@[m]) == old(self).output_labels@[m]
                    &&& match ev {
                        Some(RouterEvent::OutputLabelUpdate(ix, ls)) => ix == index && changed@.len() > 0
                            && rlabels_view(ls@) == rlabels_view(
                            final(self).output_labels@[index as int]@,
                        ),
                        None => changed@.len() == 0,
                        _ => false,
                    }
                },
                Err(e) => e == RouterError::OutOfRange && *final(self) == *old(self) && (index
                    >= old(self).matrix_info.len() || exists|i: int|
                    0 <= i < changed@.len() && (#[trigger] changed@[i]).id >= old(
                        self,
                    ).matrix_info@[index as int].output_count),
            },
    {
        if (index as usize) >= self.matrix_info.len() {
            return Err(RouterError::OutOfRange);
        }
        let idx = index as usize;
        let bound = self.matrix_info[idx].output_count;
        let mut i: usize = 0;
        while i < changed.len()
            invariant
                i <= changed@.len(),
                idx == index as usize,
                old(self).wf(),
                *self == *old(self),
                bound == self.matrix_info@[idx as int].output_count,
                forall|q: int| 0 <= q < i ==> (#[trigger] changed@[q]).id < bound,
            decreases changed.len() - i,
        {
            if changed[i].id >= bound {
                proof {
                    assert(0 <= i < changed@.len() && (#[trigger] changed@[i as int]).id >= old(
                        self,
                    ).matrix_info@[index as int].output_count);
                    assert(exists|q: int|
                        0 <= q < changed@.len() && (#[trigger] changed@[q]).id >= old(
                            self,
                        ).matrix_info@[index as int].output_count);
                }
                return Err(RouterError::OutOfRange);
            }
            i = i + 1;
        }
        let ghost origv = rlabels_view(self.output_labels@[idx as int]@);
        let ghost csv = rlabels_view(changed@);
        let mut row = clone_labels(&self.output_labels[idx]);
        let mut j: usize = 0;
        proof {
            assert(csv.skip(0) =~= csv);
            assert((self.input_labels@[idx as int])@.len() == self.matrix_info@[
                idx as int
            ].input_count);
            assert((self.output_labels@[idx as int])@.len() == self.matrix_info@[idx as int].output_count);
            assert(rlabels_view(row@) == origv);
            assert forall|q: int| 0 <= q < row@.len() implies (#[trigger] row@[q]).id == q by {
                assert(rlabels_view(row@)[q] == row@[q]@);
                assert(origv[q] == self.output_labels@[idx as int]@[q]@);
                assert((self.output_labels@[idx as int])@[q].id == q);
            }
        }
        while j < changed.len()
            invariant
                j <= changed@.len(),
                old(self).wf(),
                *self == *old(self),
                csv == rlabels_view(changed@),
                bound == self.matrix_info@[idx as int].output_count,
                row@.len() == self.output_labels@[idx as int]@.len(),
                row@.len() == bound,
                forall|q: int| 0 <= q < changed@.len() ==> (#[trigger] changed@[q]).id < bound,
                forall|q: int| 0 <= q < row@.len() ==> (#[trigger] row@[q]).id == q,
                apply_label_changes(origv, csv) == apply_label_changes(
                    rlabels_view(row@),
                    csv.skip(j as int),
                ),
                (idx as int) < self.output_labels@.len(),
                self.wf(),
            decreases changed.len() - j,
        {
            let cid = changed[j].id as usize;
            let name = clone_bytes(&changed[j].name);
            let ghost prev = rlabels_view(row@);
            let ghost prevrow = row@;
            row[cid] = RouterLabel { id: changed[j].id, name };
            proof {
                assert(rlabels_view(row@) =~= prev.update(
                    changed@[j as int].id as int,
                    RouterLabelV {
                        id: changed@[j as int].id,
                        name: changed@[j as int].name@,
                    },
                ));
                assert(csv.skip(j as int)[0] == csv[j as int]);
                assert(csv.skip(j as int).drop_first() =~= csv.skip(j as int + 1));
                assert forall|q: int| 0 <= q < row@.len() implies (#[trigger] row@[q]).id
                    == q by {
                    if q != cid {
                        assert(row@[q] == prevrow[q]);
                    }
                }
            }
            j = j + 1;
        }
        proof {
            assert(csv.skip(changed@.len() as int) =~= Seq::<RouterLabelV>::empty());
        }
        let ev = if changed.len() > 0 {
            Some(RouterEvent::OutputLabelUpdate(index, clone_labels(&row)))
        } else {
            None
        };
        self.output_labels[idx] = row;
        proof {
            assert forall|m: int|
                0 <= m < self.matrix_info.len() implies {
                &&& (#[trigger] self.input_labels@[m])@.len()
                    == self.matrix_info@[m].input_count
                &&& self.output_labels@[m]@.len() == self.matrix_info@[m].output_count
                &&& self.routes@[m]@.len() == self.matrix_info@[m].output_count
                &&& forall|i2: int|
                    0 <= i2 < self.input_labels@[m]@.len() ==> (
                    #[trigger] self.input_labels@[m]@[i2]).id == i2
                &&& forall|i2: int|
                    0 <= i2 < self.output_labels@[m]@.len() ==> (
                    #[trigger] self.output_labels@[m]@[i2]).id == i2
                &&& forall|i2: int|
                    0 <= i2 < self.routes@[m]@.len() ==> (
                    #[trigger] self.routes@[m]@[i2]).to_output == i2
                        && self.routes@[m]@[i2].from_input < self.matrix_info@[m].input_count
            } by {
                if m != idx {
                    assert(self.output_labels@[m] == old(self).output_labels@[m]);
                }
            }
        }
        Ok(ev)
    }

    /// Merge sparse patches into matrix `index` and report the event to
    /// broadcast. Out-of-range coordinates reject the whole update.
    pub fn update_routes(&mut self, index: u32, changes: Vec<RouterPatch>) -> (r: Result<
        Option<RouterEvent>,
        RouterError,
    >)
        requires
            old(self).wf(),
        ensures
            final(self).wf(),
            match r {
                Ok(ev) => {
                    &&& index < old(self).matrix_info.len()
                    &&& forall|i: int|
                        0 <= i < changes@.len() ==> (#[trigger] changes@[i]).to_output < old(
                            self,
                        ).matrix_info@[index as int].output_count && changes@[i].from_input
                            < old(self).matrix_info@[index as int].input_count
                    &&& final(self).routes@[index as int]@ == apply_patch_changes(
                        old(self).routes@[index as int]@,
                        changes@,
                    )
                    &&& final(self).matrix_info == old(self).matrix_info
                    &&& final(self).input_labels@ =~= old(self).input_labels@
                    &&& final(self).output_labels@ =~= old(self).output_labels@
                    &&& final(self).routes@.len() == old(self).routes@.len()
                    &&& final(self).info == old(self).info
                    &&& final(self).alive == old(self).alive
                    &&& forall|m: int|
                        0 <= m < old(self).routes@.len() && m != index ==> (
                        #[trigger] final(self).routes@[m]) == old(self).routes@[m]
                    &&& match ev {
                        Some(RouterEvent::RouteUpdate(ix, ps)) => ix == index && changes@.len()
                            > 0 && ps@ == final(self).routes@[index as int]@,
                        None => changes@.len() == 0,
                        _ => false,
                    }
                },
                Err(e) => e == RouterError::OutOfRange && *final(self) == *old(self) && (index
                    >= old(self).matrix_info.len() || exists|i: int|
                    0 <= i < changes@.len() && ((#[trigger] changes@[i]).to_output >= old(
                        self,
                    ).matrix_info@[index as int].output_count || changes@[i].from_input >= old(
                        self,
                    ).matrix_info@[index as int].input_count)),
            },
    {
        if (index as usize) >= self.matrix_info.len() {
            return Err(RouterError::OutOfRange);
        }
        let idx = index as usize;
        let outs = self.matrix_info[idx].output_count;
        let ins = self.matrix_info[idx].input_count;
        let mut i: usize = 0;
        while i < changes.len()
            invariant
                i <= changes@.len(),
                idx == index as usize,
                old(self).wf(),
                *self == *old(self),
                outs == self.matrix_info@[idx as int].output_count,
                ins == self.matrix_info@[idx as int].input_count,
                forall|q: int|
                    0 <= q < i ==> (#[trigger] changes@[q]).to_output < outs
                        && changes@[q].from_input < ins,
            decreases changes.len() - i,
        {
            if changes[i].to_output >= outs || changes[i].from_input >= ins {
                proof {
                    assert(0 <= i < changes@.len() && ((#[trigger] changes@[i as int]).to_output
                        >= old(self).matrix_info@[index as int].output_count || changes@[
                        i as int
                    ].from_input >= old(self).matrix_info@[index as int].input_count));
                    assert(exists|q: int|
                        0 <= q < changes@.len() && ((#[trigger] changes@[q]).to_output >= old(
                            self,
                        ).matrix_info@[index as int].output_count || changes@[q].from_input
                            >= old(self).matrix_info@[index as int].input_count));
                }
                return Err(RouterError::OutOfRange);
            }
            i = i + 1;
        }
        let ghost origv = self.routes@[idx as int]@;
        let mut row = clone_patches(&self.routes[idx]);
        let mut j: usize = 0;
        proof {
            assert(changes@.skip(0) =~= changes@);
            assert((self.input_labels@[idx as int])@.len() == self.matrix_info@[
                idx as int
            ].input_count);
            assert((self.routes@[idx as int])@.len() == self.matrix_info@[idx as int].output_count);
        }
        while j < changes.len()
            invariant
                j <= changes@.len(),
                idx == index as usize,
                old(self).wf(),
                *self == *old(self),
                outs == self.matrix_info@[idx as int].output_count,
                ins == self.matrix_info@[idx as int].input_count,
                row@.len() == outs,
                forall|q: int|
                    0 <= q < changes@.len() ==> (#[trigger] changes@[q]).to_output < outs
                        && changes@[q].from_input < ins,
                forall|q: int|
                    0 <= q < row@.len() ==> (#[trigger] row@[q]).to_output == q
                        && row@[q].from_input < ins,
                apply_patch_changes(origv, changes@) == apply_patch_changes(
                    row@,
                    changes@.skip(j as int),
                ),
                (idx as int) < self.routes@.len(),
                origv == self.routes@[idx as int]@,
            decreases changes.len() - j,
        {
            let cid = changes[j].to_output as usize;
            let ghost prevrow = row@;
            row[cid] = RouterPatch { from_input: changes[j].from_input, to_output: changes[j].to_output };
            proof {
                assert(row@ =~= prevrow.update(
                    changes@[j as int].to_output as int,
                    RouterPatch {
                        from_input: changes@[j as int].from_input,
                        to_output: changes@[j as int].to_output,
                    },
                ));
                assert(changes@.skip(j as int)[0] == changes@[j as int]);
                assert(changes@.skip(j as int).drop_first() =~= changes@.skip(j as int + 1));
                assert forall|q: int| 0 <= q < row@.len() implies (#[trigger] row@[q]).to_output
                    == q && row@[q].from_input < ins by {
                    if q != cid {
                        assert(row@[q] == prevrow[q]);
                    }
                }
            }
            j = j + 1;
        }
        proof {
            assert(changes@.skip(changes@.len() as int) =~= Seq::<RouterPatch>::empty());
        }
        let ev = if changes.len() > 0 {
            Some(RouterEvent::RouteUpdate(index, clone_patches(&row)))
        } else {
            None
        };
        self.routes[idx] = row;
        proof {
            assert forall|m: int|
                0 <= m < self.matrix_info.len() implies {
                &&& (#[trigger] self.input_labels@[m])@.len()
                    == self.matrix_info@[m].input_count
                &&& self.output_labels@[m]@.len() == self.matrix_info@[m].output_count
                &&& self.routes@[m]@.len() == self.matrix_info@[m].output_count
                &&& forall|i2: int|
                    0 <= i2 < self.input_labels@[m]@.len() ==> (
                    #[trigger] self.input_labels@[m]@[i2]).id == i2
                &&& forall|i2: int|
                    0 <= i2 < self.output_labels@[m]@.len() ==> (
                    #[trigger] self.output_labels@[m]@[i2]).id == i2
                &&& forall|i2: int|
                    0 <= i2 < self.routes@[m]@.len() ==> (
                    #[trigger] self.routes@[m]@[i2]).to_output == i2
                        && self.routes@[m]@[i2].from_input < self.matrix_info@[m].input_count
            } by {
                if m != idx {
                    assert(self.routes@[m] == old(self).routes@[m]);
                }
            }
        }
        Ok(ev)
    }
}

/// Field-wise copy of a router identity.
pub fn clone_info(v: &RouterInfo) -> (r: RouterInfo)
    ensures
        r@ == v@,
{
    let model = match &v.model {
        Some(b) => Some(clone_bytes(b)),
        None => None,
    };
    let name = match &v.name {
        Some(b) => Some(clone_bytes(b)),
        None => None,
    };
    RouterInfo { model, name, matrix_count: v.matrix_count }
}

/// Element-wise copy of a label row.
pub fn clone_labels(v: &Vec<RouterLabel>) -> (r: Vec<RouterLabel>)
    ensures
        r@.len() == v@.len(),
        rlabels_view(r@) == rlabels_view(v@),
{
    let mut r: Vec<RouterLabel> = Vec::new();
    let mut i: usize = 0;
    while i < v.len()
        invariant
            i <= v.len(),
            r@.len() == i,
            forall|q: int| 0 <= q < i ==> (#[trigger] r@[q])@ == v@[q]@,
        decreases v.len() - i,
    {
        let name = clone_bytes(&v[i].name);
        r.push(RouterLabel { id: v[i].id, name });
        i = i + 1;
    }
    assert(rlabels_view(r@) =~= rlabels_view(v@));
    r
}

/// Copy of a patch row.
pub fn clone_patches(v: &Vec<RouterPatch>) -> (r: Vec<RouterPatch>)
    ensures
        r@ == v@,
{
    let mut r: Vec<RouterPatch> = Vec::new();
    let mut i: usize = 0;
    while i < v.len()
        invariant
            i <= v.len(),
            r@ =~= v@.take(i as int),
        decreases v.len() - i,
    {
        r.push(v[i]);
        assert(r@ =~= v@.take(i + 1));
        i = i + 1;
    }
    assert(r@ =~= v@);
    r
}

/// Byte-for-byte copy.
pub fn clone_bytes(v: &Vec<u8>) -> (r: Vec<u8>)
    ensures
        r@ == v@,
{
    let mut r: Vec<u8> = Vec::new();
    let mut i: usize = 0;
    while i < v.len()
        invariant
            i <= v.len(),
            r@ =~= v@.take(i as int),
        decreases v.len() - i,
    {
        r.push(v[i]);
        assert(r@ =~= v@.take(i + 1));
        i = i + 1;
    }
    assert(r@ =~= v@);
    r
}

} // verus!
