//! Path comparison as `std::path::Path` does it on Unix: by components.
use vstd::prelude::*;

use crate::text::{chars_of, same_chars};

verus! {

/// Keeps `piece` as a normal component unless it is empty or `.`.
pub open spec fn keep_piece(done: Seq<Seq<char>>, piece: Seq<char>) -> Seq<Seq<char>> {
    if piece.len() > 0 && piece != seq!['.'] {
        done.push(piece)
    } else {
        done
    }
}

/// Scans `p` from the left: the normal components kept so far, and the piece
/// being read since the last `/`.
pub open spec fn scan_parts(p: Seq<char>) -> (Seq<Seq<char>>, Seq<char>)
    decreases p.len(),
{
    if p.len() == 0 {
        (Seq::empty(), Seq::empty())
    } else {
        let (done, cur) = scan_parts(p.drop_last());
        if p.last() == '/' {
            (keep_piece(done, cur), Seq::empty())
        } else {
            (done, cur.push(p.last()))
        }
    }
}

/// The pieces of `p` between slashes, without the empty ones and the `.` ones:
/// repeated separators, `.` and a trailing slash are normalized away.
pub open spec fn normal_parts(p: Seq<char>) -> Seq<Seq<char>> {
    let (done, cur) = scan_parts(p);
    keep_piece(done, cur)
}

/// `p` starts at the root directory.
pub open spec fn has_root(p: Seq<char>) -> bool {
    p.len() > 0 && p[0] == '/'
}

/// `p` is relative and starts with the current directory `.`, which is the
/// one `.` that components keep.
pub open spec fn leading_cur_dir(p: Seq<char>) -> bool {
    !has_root(p) && p.len() > 0 && p[0] == '.' && (p.len() == 1 || p[1] == '/')
}

/// Two paths that `Path`'s `==` holds equal: the same components.
pub open spec fn same_components(a: Seq<char>, b: Seq<char>) -> bool {
    &&& has_root(a) == has_root(b)
    &&& leading_cur_dir(a) == leading_cur_dir(b)
    &&& normal_parts(a) == normal_parts(b)
}

fn normal_parts_of(p: &Vec<char>) -> (r: Vec<Vec<char>>)
    ensures
        r@.map_values(|w: Vec<char>| w@) == normal_parts(p@),
{
    let mut done: Vec<Vec<char>> = Vec::new();
    let mut cur: Vec<char> = Vec::new();
    let mut i: usize = 0;
    let dot = vec!['.'];
    assert(dot@ =~= seq!['.']);
    while i < p.len()
        invariant
            i <= p.len(),
            dot@ == seq!['.'],
            scan_parts(p@.take(i as int)) == (done@.map_values(|w: Vec<char>| w@), cur@),
        decreases p.len() - i,
    {
        let c = p[i];
        assert(p@.take(i + 1).drop_last() =~= p@.take(i as int));
        if c == '/' {
            if cur.len() > 0 && !same_chars(&cur, &dot) {
                let ghost old_done = done@;
                done.push(cur);
                assert(done@.map_values(|w: Vec<char>| w@) =~= old_done.map_values(
                    |w: Vec<char>| w@,
                ).push(cur@));
            }
            cur = Vec::new();
            assert(cur@ =~= Seq::<char>::empty());
        } else {
            cur.push(c);
        }
        i = i + 1;
    }
    assert(p@.take(p.len() as int) =~= p@);
    if cur.len() > 0 && !same_chars(&cur, &dot) {
        let ghost old_done = done@;
        done.push(cur);
        assert(done@.map_values(|w: Vec<char>| w@) =~= old_done.map_values(|w: Vec<char>| w@).push(
            cur@,
        ));
    }
    done
}

/// Whether `a` and `b` name the same path in the sense of `Path`'s `==`:
/// whether they have the same components.
pub fn same_path(a: &str, b: &str) -> (r: bool)
    ensures
        r == same_components(a@, b@),
{
    let va = chars_of(a);
    let vb = chars_of(b);
    let root_a = va.len() > 0 && va[0] == '/';
    let root_b = vb.len() > 0 && vb[0] == '/';
    let cur_a = !root_a && va.len() > 0 && va[0] == '.' && (va.len() == 1 || va[1] == '/');
    let cur_b = !root_b && vb.len() > 0 && vb[0] == '.' && (vb.len() == 1 || vb[1] == '/');
    if root_a != root_b || cur_a != cur_b {
        return false;
    }
    let pa = normal_parts_of(&va);
    let pb = normal_parts_of(&vb);
    let ghost sa = pa@.map_values(|w: Vec<char>| w@);
    let ghost sb = pb@.map_values(|w: Vec<char>| w@);
    assert(sa =~= normal_parts(a@));
    assert(sb =~= normal_parts(b@));
    if pa.len() != pb.len() {
        assert(sa.len() != sb.len());
        return false;
    }
    let mut i: usize = 0;
    while i < pa.len()
        invariant
            pa.len() == pb.len(),
            i <= pa.len(),
            sa == pa@.map_values(|w: Vec<char>| w@),
            sb == pb@.map_values(|w: Vec<char>| w@),
            sa == normal_parts(a@),
            sb == normal_parts(b@),
            forall|k: int| 0 <= k < i ==> sa[k] == sb[k],
        decreases pa.len() - i,
    {
        if !same_chars(&pa[i], &pb[i]) {
            assert(sa[i as int] != sb[i as int]);
            return false;
        }
        i = i + 1;
    }
    assert(sa =~= sb);
    true
}

proof fn lemma_scan_after_slash(r: Seq<char>, x: Seq<char>, k: int)
    requires
        0 <= k <= x.len(),
        forall|i: int| 0 <= i < x.len() ==> #[trigger] x[i] != '/',
    ensures
        scan_parts(r + seq!['/'] + x.take(k)) == (normal_parts(r), x.take(k)),
    decreases k,
{
    let s = r + seq!['/'] + x.take(k);
    if k == 0 {
        assert(s.drop_last() =~= r);
        assert(x.take(0) =~= Seq::<char>::empty());
    } else {
        lemma_scan_after_slash(r, x, k - 1);
        assert(s.drop_last() =~= r + seq!['/'] + x.take(k - 1));
        assert(s.last() == x[k - 1]);
        assert(x.take(k - 1).push(x[k - 1]) =~= x.take(k));
    }
}

/// Law: a named piece after a slash is a component of its own: for any path
/// `r` and a name `x` that holds no `/` and is neither empty nor `.`, the
/// components of `r/x` are those of `r` followed by `x` (so a name such as
/// `.DS_Store` is kept), and `r/x` is never the same path as `r`.
pub proof fn law_named_piece_is_kept(r: Seq<char>, x: Seq<char>)
    requires
        x.len() > 0,
        x != seq!['.'],
        forall|i: int| 0 <= i < x.len() ==> #[trigger] x[i] != '/',
    ensures
        normal_parts(r + seq!['/'] + x) == normal_parts(r).push(x),
        !same_components(r + seq!['/'] + x, r),
{
    lemma_scan_after_slash(r, x, x.len() as int);
    assert(x.take(x.len() as int) =~= x);
    assert(normal_parts(r).push(x).len() != normal_parts(r).len());
}

/// Law: pieces are dropped only when they are empty or exactly `.`: the
/// components of `r/` and of `r/.` are those of `r`.
pub proof fn law_empty_and_dot_pieces_dropped(r: Seq<char>)
    ensures
        normal_parts(r + seq!['/']) == normal_parts(r),
        normal_parts(r + seq!['/', '.']) == normal_parts(r),
{
    let x = seq!['.'];
    lemma_scan_after_slash(r, x, 0);
    lemma_scan_after_slash(r, x, 1);
    assert(r + seq!['/'] + x.take(0) =~= r + seq!['/']);
    assert(r + seq!['/'] + x.take(1) =~= r + seq!['/', '.']);
    assert(x.take(1) =~= x);
}

} // verus!
