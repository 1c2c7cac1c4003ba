//! Cutting one page out of a ranked list of references.
use vstd::prelude::*;
use crate::schemas::{AppError, ErrorKind};

verus! {

/// The references of page `page_num` (counted from 1) of `per_page` each:
/// positions `(page_num - 1) * per_page` up to `page_num * per_page`, as far as `refs` goes.
pub open spec fn page_window(refs: Seq<Seq<char>>, per_page: nat, page_num: nat) -> Seq<Seq<char>> {
    let start = ((page_num - 1) * per_page) as int;
    let end = (page_num * per_page) as int;
    if start >= refs.len() {
        Seq::empty()
    } else if end >= refs.len() {
        refs.subrange(start, refs.len() as int)
    } else {
        refs.subrange(start, end)
    }
}

/// The references on page `page_num`; page numbers start at 1.
pub fn page_refs(refs: &Vec<String>, per_page: usize, page_num: usize) -> (r: Result<Vec<String>, AppError>)
    ensures
        r is Err <==> page_num == 0,
        r matches Err(e) ==> e.kind == ErrorKind::InvalidInput,
        r matches Ok(v) ==> v.deep_view() == page_window(refs.deep_view(), per_page as nat, page_num as nat),
{
    if page_num == 0 {
        return Err(AppError::new(ErrorKind::InvalidInput, "pages are numbered from 1"));
    }
    let ghost rv = refs.deep_view();
    let n = refs.len();
    let start: usize = match (page_num - 1).checked_mul(per_page) {
        Some(s) => if s < n { s } else { n },
        None => n,
    };
    let end: usize = if n - start < per_page { n } else { start + per_page };
    proof {
        let st = (page_num - 1) * per_page;
        assert(page_num * per_page == st + per_page) by (nonlinear_arith)
            requires
                st == (page_num - 1) * per_page,
                page_num >= 1,
        ;
    }
    let mut v: Vec<String> = Vec::new();
    let mut i: usize = start;
    while i < end
        invariant
            start <= i <= end <= n,
            n == refs.len(),
            rv == refs.deep_view(),
            v.deep_view() == rv.subrange(start as int, i as int),
        decreases end - i,
    {
        let ghost before = v.deep_view();
        let c = refs[i].clone();
        assert(refs.deep_view()[i as int] == refs[i as int]@);
        v.push(c);
        assert(v.deep_view() =~= before.push(refs[i as int]@));
        assert(v.deep_view() =~= rv.subrange(start as int, i + 1));
        i = i + 1;
    }
    assert(v.deep_view() =~= page_window(rv, per_page as nat, page_num as nat));
    Ok(v)
}

} // verus!
