//! File-path handling for '/'-separated paths: components, file name, stem,
//! extension, parent and joining, as `std::path` defines them on Unix.
use vstd::prelude::*;
use crate::text::{lower, lower_vec, seq_eq};

verus! {

/// Split at every '/' (keeping empty pieces): "a//b" → ["a", "", "b"].
pub open spec fn split_slash(p: Seq<char>) -> Seq<Seq<char>>
    decreases p.len(),
{
    if p.len() == 0 {
        seq![Seq::<char>::empty()]
    } else {
        let r = split_slash(p.drop_last());
        if p.last() == '/' {
            r.push(Seq::<char>::empty())
        } else {
            r.update(r.len() - 1, r.last().push(p.last()))
        }
    }
}

/// A piece that names a path component (not empty, not ".").
pub open spec fn is_component(x: Seq<char>) -> bool {
    x.len() > 0 && x != seq!['.']
}

/// The normal components of a path (empty and "." pieces dropped).
pub open spec fn components(p: Seq<char>) -> Seq<Seq<char>> {
    split_slash(p).filter(|x: Seq<char>| is_component(x))
}

pub open spec fn is_absolute(p: Seq<char>) -> bool {
    p.len() > 0 && p[0] == '/'
}

/// `Path::file_name`: the last component unless it is "..".
pub open spec fn file_name(p: Seq<char>) -> Option<Seq<char>> {
    let c = components(p);
    if c.len() > 0 && c.last() != seq!['.', '.'] {
        Some(c.last())
    } else {
        None
    }
}

/// Position of the last '.' in `n`, if any.
pub open spec fn last_dot(n: Seq<char>) -> Option<int>
    decreases n.len(),
{
    if n.len() == 0 {
        None
    } else if n.last() == '.' {
        Some(n.len() - 1)
    } else {
        last_dot(n.drop_last())
    }
}

/// The stem of a file name ("a.b.mkv" → "a.b", ".profile" → ".profile").
pub open spec fn name_stem(n: Seq<char>) -> Seq<char> {
    match last_dot(n) {
        Some(i) if i > 0 => n.take(i),
        _ => n,
    }
}

/// The extension of a file name ("a.b.mkv" → "mkv"; none for "a" or ".profile").
pub open spec fn name_ext(n: Seq<char>) -> Option<Seq<char>> {
    match last_dot(n) {
        Some(i) if i > 0 => Some(n.skip(i + 1)),
        _ => None,
    }
}

/// `Path::file_stem`.
pub open spec fn file_stem(p: Seq<char>) -> Option<Seq<char>> {
    match file_name(p) {
        Some(n) => Some(name_stem(n)),
        None => None,
    }
}

/// `Path::extension`.
pub open spec fn extension(p: Seq<char>) -> Option<Seq<char>> {
    match file_name(p) {
        Some(n) => name_ext(n),
        None => None,
    }
}

/// The extension in ASCII lower case, or "" when there is none.
pub open spec fn ext_lower(p: Seq<char>) -> Seq<char> {
    match extension(p) {
        Some(e) => lower(e),
        None => Seq::<char>::empty(),
    }
}

/// `PathBuf::push` of a relative component: a '/' is inserted unless the
/// buffer is empty or already ends with one.
pub open spec fn push_component(buf: Seq<char>, c: Seq<char>) -> Seq<char> {
    if buf.len() > 0 && buf.last() != '/' {
        buf + seq!['/'] + c
    } else {
        buf + c
    }
}

/// Pushes every component of `cs`, in order.
pub open spec fn push_all(buf: Seq<char>, cs: Seq<Seq<char>>) -> Seq<char>
    decreases cs.len(),
{
    if cs.len() == 0 {
        buf
    } else {
        push_component(push_all(buf, cs.drop_last()), cs.last())
    }
}

/// The components of `source`'s parent directory below `root`, when the parent
/// lies under `root` (`parent().strip_prefix(root)`).
pub open spec fn rel_dir(source: Seq<char>, root: Seq<char>) -> Option<Seq<Seq<char>>> {
    let sc = components(source);
    let rc = components(root);
    if sc.len() == 0 {
        None
    } else {
        let pc = sc.drop_last();
        if is_absolute(source) == is_absolute(root) && rc.len() <= pc.len() && pc.take(
            rc.len() as int,
        ) == rc {
            Some(pc.skip(rc.len() as int))
        } else {
            None
        }
    }
}

proof fn lemma_split_nonempty(p: Seq<char>)
    ensures
        split_slash(p).len() >= 1,
    decreases p.len(),
{
    if p.len() > 0 {
        lemma_split_nonempty(p.drop_last());
    }
}

/// All pieces of `p` split at '/', as vectors of characters.
fn split_pieces(p: &[char]) -> (r: Vec<Vec<char>>)
    ensures
        r@.map_values(|v: Vec<char>| v@) == split_slash(p@),
{
    let mut r: Vec<Vec<char>> = Vec::new();
    r.push(Vec::new());
    let mut i: usize = 0;
    proof {
        assert(p@.take(0) =~= Seq::<char>::empty());
        assert(r@.map_values(|v: Vec<char>| v@) =~= split_slash(p@.take(0)));
    }
    while i < p.len()
        invariant
            i <= p@.len(),
            r@.len() >= 1,
            r@.map_values(|v: Vec<char>| v@) == split_slash(p@.take(i as int)),
        decreases p@.len() - i,
    {
        let c = p[i];
        let ghost before = r@.map_values(|v: Vec<char>| v@);
        proof {
            assert(p@.take(i + 1).drop_last() =~= p@.take(i as int));
            assert(p@.take(i + 1).last() == c);
        }
        if c == '/' {
            r.push(Vec::new());
            assert(r@.map_values(|v: Vec<char>| v@) =~= before.push(Seq::<char>::empty()));
        } else {
            let last = r.len() - 1;
            let mut piece = r.pop().unwrap();
            piece.push(c);
            r.push(piece);
            assert(r@.map_values(|v: Vec<char>| v@) =~= before.update(before.len() - 1, before.last().push(c)));
        }
        i = i + 1;
    }
    assert(p@.take(p@.len() as int) =~= p@);
    r
}

/// The normal components of a path.
pub fn components_of(p: &[char]) -> (r: Vec<Vec<char>>)
    ensures
        r@.map_values(|v: Vec<char>| v@) == components(p@),
{
    let parts = split_pieces(p);
    let ghost all = split_slash(p@);
    let ghost keep = |x: Seq<char>| is_component(x);
    let mut r: Vec<Vec<char>> = Vec::new();
    let mut i: usize = 0;
    proof {
        assert(all.take(0) =~= Seq::<Seq<char>>::empty());
        reveal_with_fuel(Seq::filter, 1);
        assert(all.take(0).filter(keep) =~= Seq::<Seq<char>>::empty());
        assert(r@.map_values(|v: Vec<char>| v@) =~= all.take(0).filter(keep));
    }
    while i < parts.len()
        invariant
            i <= parts@.len(),
            parts@.map_values(|v: Vec<char>| v@) == all,
            keep == (|x: Seq<char>| is_component(x)),
            r@.map_values(|v: Vec<char>| v@) == all.take(i as int).filter(keep),
        decreases parts@.len() - i,
    {
        let piece = &parts[i];
        let ghost pv = piece@;
        proof {
            assert(all[i as int] == pv);
            assert(all.take(i + 1).drop_last() =~= all.take(i as int));
            assert(all.take(i + 1).last() == pv);
            reveal_with_fuel(Seq::filter, 1);
        }
        let is_dot = piece.len() == 1 && piece[0] == '.';
        proof {
            if piece@.len() == 1 {
                assert(is_dot == (pv =~= seq!['.']));
            }
        }
        let ghost before = r@.map_values(|v: Vec<char>| v@);
        if piece.len() > 0 && !is_dot {
            r.push(piece.clone());
            proof {
                assert(r@.map_values(|v: Vec<char>| v@) =~= before.push(pv));
            }
        }
        i = i + 1;
    }
    assert(all.take(parts@.len() as int) =~= all);
    r
}

/// `Path::file_name`.
pub fn file_name_of(p: &[char]) -> (r: Option<Vec<char>>)
    ensures
        match r {
            Some(v) => file_name(p@) == Some(v@),
            None => file_name(p@) is None,
        },
{
    let mut cs = components_of(p);
    let ghost cv = cs@.map_values(|v: Vec<char>| v@);
    if cs.len() == 0 {
        return None;
    }
    let last = cs.pop().unwrap();
    proof {
        assert(cv.last() == last@);
    }
    let dotdot = last.len() == 2 && last[0] == '.' && last[1] == '.';
    proof {
        if last@.len() == 2 {
            assert(dotdot == (last@ =~= seq!['.', '.']));
        } else {
            assert(last@ != seq!['.', '.']);
        }
    }
    if dotdot {
        None
    } else {
        Some(last)
    }
}

/// Position of the last '.'.
pub fn last_dot_of(n: &[char]) -> (r: Option<usize>)
    ensures
        match r {
            Some(i) => last_dot(n@) == Some(i as int) && i < n@.len(),
            None => last_dot(n@) is None,
        },
{
    proof {
        assert(n@.take(n@.len() as int) =~= n@);
    }
    let mut i: usize = n.len();
    while i > 0
        invariant
            i <= n@.len(),
            last_dot(n@) == last_dot(n@.take(i as int)),
        decreases i,
    {
        proof {
            assert(n@.take(i as int).drop_last() =~= n@.take(i - 1));
        }
        if n[i - 1] == '.' {
            proof {
                assert(n@.take(i as int).last() == n@[i - 1]);
            }
            return Some(i - 1);
        }
        i = i - 1;
    }
    proof {
        assert(n@.take(0) =~= Seq::<char>::empty());
    }
    None
}

proof fn lemma_last_dot_take(n: Seq<char>)
    ensures
        last_dot(n) == last_dot(n.take(n.len() as int)),
{
    assert(n.take(n.len() as int) =~= n);
}

/// `Path::file_stem`.
pub fn file_stem_of(p: &[char]) -> (r: Option<Vec<char>>)
    ensures
        match r {
            Some(v) => file_stem(p@) == Some(v@),
            None => file_stem(p@) is None,
        },
{
    proof {
        lemma_last_dot_take(p@);
    }
    match file_name_of(p) {
        None => None,
        Some(n) => {
            proof {
                lemma_last_dot_take(n@);
            }
            match last_dot_of(&n) {
                Some(i) if i > 0 => Some(slice_to(&n, i)),
                _ => Some(n),
            }
        },
    }
}

/// `Path::extension`.
pub fn extension_of(p: &[char]) -> (r: Option<Vec<char>>)
    ensures
        match r {
            Some(v) => extension(p@) == Some(v@),
            None => extension(p@) is None,
        },
{
    match file_name_of(p) {
        None => None,
        Some(n) => {
            proof {
                lemma_last_dot_take(n@);
            }
            match last_dot_of(&n) {
                Some(i) if i > 0 => {
                    let nl = n.len();
                    assert(i < nl);
                    Some(slice_from(&n, i + 1))
                },
                _ => None,
            }
        },
    }
}

/// The extension in lower case, or "" (`extension().to_str().to_ascii_lowercase()`).
pub fn ext_lower_of(p: &[char]) -> (r: Vec<char>)
    ensures
        r@ == ext_lower(p@),
{
    match extension_of(p) {
        Some(e) => lower_vec(&e),
        None => Vec::new(),
    }
}

/// A copy of a character slice.
pub fn copy_chars(v: &[char]) -> (r: Vec<char>)
    ensures
        r@ == v@,
{
    let r = slice_to(v, v.len());
    assert(v@.take(v@.len() as int) =~= v@);
    r
}

/// The first `k` characters.
pub fn slice_to(v: &[char], k: usize) -> (r: Vec<char>)
    requires
        k <= v@.len(),
    ensures
        r@ == v@.take(k as int),
{
    let mut r: Vec<char> = Vec::new();
    let mut i: usize = 0;
    while i < k
        invariant
            i <= k <= v@.len(),
            r@ == v@.take(i as int),
        decreases k - i,
    {
        r.push(v[i]);
        assert(v@.take(i + 1) =~= v@.take(i as int).push(v@[i as int]));
        i = i + 1;
    }
    r
}

/// The characters from position `k` on.
pub fn slice_from(v: &[char], k: usize) -> (r: Vec<char>)
    requires
        k <= v@.len(),
    ensures
        r@ == v@.skip(k as int),
{
    let mut r: Vec<char> = Vec::new();
    let mut i: usize = k;
    while i < v.len()
        invariant
            k <= i <= v@.len(),
            r@ == v@.subrange(k as int, i as int),
        decreases v@.len() - i,
    {
        r.push(v[i]);
        assert(v@.subrange(k as int, i + 1) =~= v@.subrange(k as int, i as int).push(v@[i as int]));
        i = i + 1;
    }
    assert(v@.subrange(k as int, v@.len() as int) =~= v@.skip(k as int));
    r
}

/// `PathBuf::push` of a relative component.
pub fn push_component_exec(buf: &mut Vec<char>, c: &[char])
    ensures
        final(buf)@ == push_component(old(buf)@, c@),
{
    if buf.len() > 0 && buf[buf.len() - 1] != '/' {
        buf.push('/');
    }
    let mut i: usize = 0;
    let ghost start = buf@;
    while i < c.len()
        invariant
            i <= c@.len(),
            buf@ == start + c@.take(i as int),
        decreases c@.len() - i,
    {
        buf.push(c[i]);
        assert(c@.take(i + 1) =~= c@.take(i as int).push(c@[i as int]));
        i = i + 1;
    }
    assert(c@.take(c@.len() as int) =~= c@);
    proof {
        if old(buf)@.len() > 0 && old(buf)@.last() != '/' {
            assert(start =~= old(buf)@ + seq!['/']);
        }
    }
}

/// The components of the source's parent below `root`, if it lies under it.
pub fn rel_dir_of(source: &[char], root: &[char]) -> (r: Option<Vec<Vec<char>>>)
    ensures
        match r {
            Some(v) => rel_dir(source@, root@) == Some(v@.map_values(|x: Vec<char>| x@)),
            None => rel_dir(source@, root@) is None,
        },
{
    let sc = components_of(source);
    let rc = components_of(root);
    let ghost scv = sc@.map_values(|x: Vec<char>| x@);
    let ghost rcv = rc@.map_values(|x: Vec<char>| x@);
    if sc.len() == 0 {
        return None;
    }
    let abs_s = source.len() > 0 && source[0] == '/';
    let abs_r = root.len() > 0 && root[0] == '/';
    let plen = sc.len() - 1;
    let ghost pcv = scv.drop_last();
    if abs_s != abs_r || rc.len() > plen {
        return None;
    }
    let mut i: usize = 0;
    while i < rc.len()
        invariant
            scv == components(source@),
            rcv == components(root@),
            abs_s == is_absolute(source@),
            abs_r == is_absolute(root@),
            abs_s == abs_r,
            i <= rc@.len() <= plen,
            plen + 1 == sc@.len(),
            scv == sc@.map_values(|x: Vec<char>| x@),
            rcv == rc@.map_values(|x: Vec<char>| x@),
            pcv == scv.drop_last(),
            forall|j: int| 0 <= j < i ==> pcv[j] == rcv[j],
        decreases rc@.len() - i,
    {
        if !seq_eq(&sc[i], &rc[i]) {
            proof {
                assert(pcv.take(rcv.len() as int)[i as int] != rcv[i as int]);
            }
            return None;
        }
        i = i + 1;
    }
    proof {
        assert(pcv.take(rcv.len() as int) =~= rcv);
    }
    let mut out: Vec<Vec<char>> = Vec::new();
    let mut k: usize = rc.len();
    while k < plen
        invariant
            rc@.len() <= k <= plen,
            plen + 1 == sc@.len(),
            scv == sc@.map_values(|x: Vec<char>| x@),
            pcv == scv.drop_last(),
            out@.map_values(|x: Vec<char>| x@) == pcv.subrange(rc@.len() as int, k as int),
        decreases plen - k,
    {
        let ghost before = out@.map_values(|x: Vec<char>| x@);
        out.push(copy_chars(&sc[k]));
        proof {
            assert(scv[k as int] == sc@[k as int]@);
            assert(pcv[k as int] == scv[k as int]);
            assert(out@.map_values(|x: Vec<char>| x@) =~= before.push(pcv[k as int]));
            assert(out@.map_values(|x: Vec<char>| x@) =~= pcv.subrange(rc@.len() as int, k + 1));
        }
        k = k + 1;
    }
    proof {
        assert(pcv.subrange(rc@.len() as int, plen as int) =~= pcv.skip(rcv.len() as int));
    }
    Some(out)
}

} // verus!
