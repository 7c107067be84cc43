//! The branch catalog: parsing the machine-readable listing of local
//! branches that the version-control tool prints, one record per line,
//! fields separated by a NUL byte, which cannot occur in a ref name.

use vstd::prelude::*;
use crate::text::find_from;
use crate::text::find_byte;
use crate::text::subvec;
use crate::text::clone_bytes;
use crate::text::is_utf8;
use crate::text::utf8_ok;

verus! {

/// A local branch as the catalog reports it: its name, its upstream
/// tracking ref if it has one, and the path of the worktree it is
/// checked out in, if any.
#[derive(Debug, Clone, PartialEq, Eq)]
pub struct BranchInfo {
    pub name: Vec<u8>,
    pub upstream: Option<Vec<u8>>,
    pub worktree: Option<Vec<u8>>,
}

/// The mathematical shadow of `BranchInfo`.
pub struct AbsBranch {
    pub name: Seq<u8>,
    pub upstream: Option<Seq<u8>>,
    pub worktree: Option<Seq<u8>>,
}

impl View for BranchInfo {
    type V = AbsBranch;

    open spec fn view(&self) -> AbsBranch {
        AbsBranch {
            name: self.name@,
            upstream: match self.upstream {
                Some(u) => Some(u@),
                None => None,
            },
            worktree: match self.worktree {
                Some(w) => Some(w@),
                None => None,
            },
        }
    }
}

pub open spec fn branch_views(v: Seq<BranchInfo>) -> Seq<AbsBranch> {
    v.map_values(|b: BranchInfo| b@)
}

/// All segments of `s` from `i` on, split at `d`: one more segment than
/// there are delimiters, empty segments kept.
pub open spec fn split_all_from(s: Seq<u8>, d: u8, i: int) -> Seq<Seq<u8>>
    decreases s.len() - i,
{
    if i < 0 || i > s.len() {
        Seq::empty()
    } else {
        let k = find_from(s, d, i);
        if k >= s.len() {
            seq![s.subrange(i, s.len() as int)]
        } else {
            // `find_from` never looks backwards, so the bound only guides
            // the termination check
            let j = if k < i { i + 1 } else { k + 1 };
            seq![s.subrange(i, k)] + split_all_from(s, d, j)
        }
    }
}

/// One catalog record: exactly three NUL-separated fields — name,
/// upstream, worktree path — the latter two empty when absent. Every
/// field must be valid text; a non-text field is a hard parse error,
/// not a degradation.
pub open spec fn parse_record(l: Seq<u8>) -> Option<AbsBranch> {
    let f = split_all_from(l, 0, 0);
    if f.len() != 3 {
        None
    } else if !(utf8_ok(f[0]) && utf8_ok(f[1]) && utf8_ok(f[2])) {
        None
    } else {
        Some(AbsBranch {
            name: f[0],
            upstream: if f[1].len() == 0 { None } else { Some(f[1]) },
            worktree: if f[2].len() == 0 { None } else { Some(f[2]) },
        })
    }
}

pub open spec fn opt_cat(pre: Seq<AbsBranch>, rest: Option<Seq<AbsBranch>>) -> Option<
    Seq<AbsBranch>,
> {
    match rest {
        Some(r) => Some(pre + r),
        None => None,
    }
}

pub open spec fn seg_branches(seg: Seq<u8>) -> Option<Seq<AbsBranch>> {
    if seg.len() == 0 {
        Some(Seq::empty())
    } else {
        match parse_record(seg) {
            Some(b) => Some(seq![b]),
            None => None,
        }
    }
}

/// The catalog from position `i` on: newline-separated records, empty
/// lines skipped, `None` as soon as one record is malformed.
pub open spec fn catalog_from(s: Seq<u8>, i: int) -> Option<Seq<AbsBranch>>
    decreases s.len() - i,
{
    if i < 0 || i >= s.len() {
        Some(Seq::empty())
    } else {
        let k = find_from(s, 0x0a, i);
        if k >= s.len() {
            seg_branches(s.subrange(i, s.len() as int))
        } else {
            // `find_from` never looks backwards, so the bound only guides
            // the termination check
            let j = if k < i { i + 1 } else { k + 1 };
            match seg_branches(s.subrange(i, k)) {
                None => None,
                Some(pre) => opt_cat(pre, catalog_from(s, j)),
            }
        }
    }
}

/// What the whole branch listing means: the branches in order, or `None`
/// if any record does not have exactly three fields of valid text.
pub open spec fn catalog_spec(s: Seq<u8>) -> Option<Seq<AbsBranch>> {
    catalog_from(s, 0)
}

/// All segments of `l` split at `d`, empty segments kept.
pub fn split_all(l: &Vec<u8>, d: u8) -> (r: Vec<Vec<u8>>)
    ensures
        r.deep_view() == split_all_from(l@, d, 0),
{
    let mut out: Vec<Vec<u8>> = Vec::new();
    let mut i: usize = 0;
    loop
        invariant
            i <= l@.len(),
            split_all_from(l@, d, 0) == out.deep_view() + split_all_from(l@, d, i as int),
        decreases l@.len() - i,
    {
        let ghost pre = out.deep_view();
        let k = find_byte(l, d, i);
        proof {
            crate::text::lemma_find_from(l@, d, i as int);
        }
        let seg = subvec(l, i, k);
        out.push(seg);
        proof {
            assert(out.deep_view() =~~= pre + seq![seg@]);
        }
        if k < l.len() {
            proof {
                assert(split_all_from(l@, d, i as int) == seq![seg@] + split_all_from(
                    l@,
                    d,
                    k + 1,
                ));
                assert(pre + (seq![seg@] + split_all_from(l@, d, k + 1)) =~= (pre + seq![seg@])
                    + split_all_from(l@, d, k + 1));
            }
            i = k + 1;
        } else {
            proof {
                assert(split_all_from(l@, d, i as int) =~= seq![seg@]);
                assert(pre + seq![seg@] =~~= out.deep_view());
                assert(out.deep_view() =~~= split_all_from(l@, d, 0));
            }
            return out;
        }
    }
}

/// Parse the branch listing. `None` means the listing is malformed: some
/// record does not split into exactly three fields, or a field is not
/// valid text.
pub fn parse_branch_records(s: &Vec<u8>) -> (r: Option<Vec<BranchInfo>>)
    ensures
        match r {
            Some(v) => catalog_spec(s@) == Some(branch_views(v@)),
            None => catalog_spec(s@) is None,
        },
{
    let mut out: Vec<BranchInfo> = Vec::new();
    let mut i: usize = 0;
    while i < s.len()
        invariant
            i <= s@.len(),
            catalog_spec(s@) == opt_cat(branch_views(out@), catalog_from(s@, i as int)),
        decreases s@.len() - i,
    {
        let ghost pre = branch_views(out@);
        let k = find_byte(s, 0x0a, i);
        proof {
            crate::text::lemma_find_from(s@, 0x0a, i as int);
        }
        if k == i {
            // an empty line carries no record
            proof {
                assert(s@.subrange(i as int, k as int).len() == 0);
                if let Some(r) = catalog_from(s@, k + 1) {
                    assert(Seq::<AbsBranch>::empty() + r =~= r);
                }
                assert(catalog_from(s@, i as int) == catalog_from(s@, k + 1));
            }
            i = k + 1;
        } else {
            let line = subvec(s, i, k);
            let fields = split_all(&line, 0);
            proof {
                assert(fields.deep_view().len() == fields@.len());
            }
            if fields.len() != 3 {
                proof {
                    assert(parse_record(line@) is None);
                    assert(seg_branches(line@) is None);
                    assert(catalog_from(s@, i as int) is None);
                }
                return None;
            }
            proof {
                assert(fields.deep_view()[0] =~= fields@[0]@);
                assert(fields.deep_view()[1] =~= fields@[1]@);
                assert(fields.deep_view()[2] =~= fields@[2]@);
            }
            if !(is_utf8(&fields[0]) && is_utf8(&fields[1]) && is_utf8(&fields[2])) {
                proof {
                    assert(parse_record(line@) is None);
                    assert(seg_branches(line@) is None);
                    assert(catalog_from(s@, i as int) is None);
                }
                return None;
            }
            let name = clone_bytes(&fields[0]);
            let upstream = if fields[1].len() == 0 {
                None
            } else {
                Some(clone_bytes(&fields[1]))
            };
            let worktree = if fields[2].len() == 0 {
                None
            } else {
                Some(clone_bytes(&fields[2]))
            };
            let b = BranchInfo { name, upstream, worktree };
            proof {
                assert(fields.deep_view()[0] =~= fields@[0]@);
                assert(fields.deep_view()[1] =~= fields@[1]@);
                assert(fields.deep_view()[2] =~= fields@[2]@);
                assert(parse_record(line@) == Some(b@));
                assert(seg_branches(line@) == Some(seq![b@]));
            }
            out.push(b);
            proof {
                assert(branch_views(out@) =~= pre + seq![out@.last()@]);
            }
            if k < s.len() {
                proof {
                    if let Some(r) = catalog_from(s@, k + 1) {
                        assert(pre + (seq![b@] + r) =~= (pre + seq![b@]) + r);
                    }
                }
                i = k + 1;
            } else {
                proof {
                    assert(catalog_from(s@, i as int) == Some(seq![b@]));
                    assert(pre + seq![b@] =~= branch_views(out@));
                    assert(branch_views(out@) + Seq::<AbsBranch>::empty() =~= branch_views(
                        out@,
                    ));
                }
                i = k;
            }
        }
    }
    proof {
        assert(catalog_from(s@, i as int) == Some(Seq::<AbsBranch>::empty()));
        assert(branch_views(out@) + Seq::<AbsBranch>::empty() =~= branch_views(out@));
    }
    Some(out)
}

} // verus!
