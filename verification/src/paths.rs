//! A model of slash-separated relative paths.
//!
//! A path's components are the pieces between `/` separators, leaving out
//! empty pieces and `.`.  The file name is the last component; its extension
//! is the text after its last `.`, unless that dot is the first character
//! (hidden files) or the name is `..`.
use crate::text::{chars_of, split_by, split_chars, string_of, join_with, views};
use vstd::prelude::*;

verus! {

/// Whether a piece of a path is dropped from its components.
pub open spec fn is_skipped_part(part: Seq<char>) -> bool {
    part.len() == 0 || part == seq!['.']
}

/// The pieces of `parts` that are kept as components, in order.
pub open spec fn kept_parts(parts: Seq<Seq<char>>) -> Seq<Seq<char>>
    decreases parts.len(),
{
    if parts.len() == 0 {
        parts
    } else if is_skipped_part(parts.last()) {
        kept_parts(parts.drop_last())
    } else {
        kept_parts(parts.drop_last()).push(parts.last())
    }
}

/// The components of a path.
pub open spec fn components(p: Seq<char>) -> Seq<Seq<char>> {
    kept_parts(split_by(p, '/'))
}

/// The index of the last occurrence of `c` in `s`.
pub open spec fn last_index_of(s: Seq<char>, c: char) -> Option<int>
    decreases s.len(),
{
    if s.len() == 0 {
        None
    } else if s.last() == c {
        Some(s.len() - 1)
    } else {
        last_index_of(s.drop_last(), c)
    }
}

/// The extension of a file name, if it has one.
pub open spec fn name_extension(name: Seq<char>) -> Option<Seq<char>> {
    if name == seq!['.', '.'] {
        None
    } else {
        match last_index_of(name, '.') {
            Some(k) => if k == 0 { None } else { Some(name.skip(k + 1)) },
            None => None,
        }
    }
}

/// The stem of a file name: the name without its extension.
pub open spec fn name_stem(name: Seq<char>) -> Seq<char> {
    if name == seq!['.', '.'] {
        name
    } else {
        match last_index_of(name, '.') {
            Some(k) => if k == 0 { name } else { name.take(k) },
            None => name,
        }
    }
}

/// The file name of a path: its last component, unless that is `..`.
pub open spec fn file_name(p: Seq<char>) -> Option<Seq<char>> {
    let c = components(p);
    if c.len() == 0 || c.last() == seq!['.', '.'] {
        None
    } else {
        Some(c.last())
    }
}

/// The extension of a path's file name, if any.
pub open spec fn path_extension(p: Seq<char>) -> Option<Seq<char>> {
    match file_name(p) {
        Some(n) => name_extension(n),
        None => None,
    }
}

/// The stem of a path's file name, if it has a file name.
pub open spec fn path_stem(p: Seq<char>) -> Option<Seq<char>> {
    match file_name(p) {
        Some(n) => Some(name_stem(n)),
        None => None,
    }
}

/// Whether a path starts at the root.
pub open spec fn is_absolute(p: Seq<char>) -> bool {
    p.len() > 0 && p[0] == '/'
}

/// The text of a path made of `comps`, rooted when `rooted`.
pub open spec fn render_path(rooted: bool, comps: Seq<Seq<char>>) -> Seq<char> {
    if rooted {
        seq!['/'] + join_with(comps, seq!['/'])
    } else {
        join_with(comps, seq!['/'])
    }
}

/// The directory part of a path: all components but the last (empty when there is none).
pub open spec fn parent_path(p: Seq<char>) -> Seq<char> {
    let c = components(p);
    if c.len() == 0 {
        Seq::<char>::empty()
    } else {
        render_path(is_absolute(p), c.drop_last())
    }
}

proof fn lemma_kept_parts_step(parts: Seq<Seq<char>>, i: int)
    requires
        0 <= i < parts.len(),
    ensures
        kept_parts(parts.take(i + 1)) == if is_skipped_part(parts[i]) {
            kept_parts(parts.take(i))
        } else {
            kept_parts(parts.take(i)).push(parts[i])
        },
{
    assert(parts.take(i + 1).drop_last() =~= parts.take(i));
    assert(parts.take(i + 1).last() == parts[i]);
}

/// The components of a path held as characters.
pub fn components_of(p: &Vec<char>) -> (r: Vec<Vec<char>>)
    ensures
        r@.len() == components(p@).len(),
        forall|i: int| 0 <= i < r@.len() ==> #[trigger] r@[i]@ == components(p@)[i],
{
    let parts = split_chars(p, '/');
    let ghost sp = split_by(p@, '/');
    let mut r: Vec<Vec<char>> = Vec::new();
    let mut i: usize = 0;
    while i < parts.len()
        invariant
            i <= parts.len(),
            parts@.len() == sp.len(),
            sp == split_by(p@, '/'),
            forall|k: int| 0 <= k < parts@.len() ==> #[trigger] parts@[k]@ == sp[k],
            r@.len() == kept_parts(sp.take(i as int)).len(),
            forall|k: int| 0 <= k < r@.len() ==> #[trigger] r@[k]@ == kept_parts(sp.take(i as int))[k],
        decreases parts.len() - i,
    {
        proof {
            lemma_kept_parts_step(sp, i as int);
        }
        let part = &parts[i];
        let skip = part.len() == 0 || (part.len() == 1 && part[0] == '.');
        proof {
            assert(parts@[i as int]@ == sp[i as int]);
            if part@.len() == 1 && part@[0] == '.' {
                assert(part@ =~= seq!['.']);
            }
            if part@ == seq!['.'] {
                assert(part@.len() == 1);
            }
        }
        if !skip {
            let mut copy: Vec<char> = Vec::new();
            let mut j: usize = 0;
            while j < part.len()
                invariant
                    j <= part.len(),
                    copy@ == part@.take(j as int),
                decreases part.len() - j,
            {
                copy.push(part[j]);
                j = j + 1;
                assert(copy@ =~= part@.take(j as int));
            }
            assert(part@.take(part.len() as int) =~= part@);
            r.push(copy);
        }
        i = i + 1;
    }
    assert(sp.take(parts.len() as int) =~= sp);
    r
}

/// The index of the last occurrence of `c` in `v`.
pub fn last_index(v: &Vec<char>, c: char) -> (r: Option<usize>)
    ensures
        match r {
            Some(k) => last_index_of(v@, c) == Some(k as int),
            None => last_index_of(v@, c) is None,
        },
        r matches Some(k) ==> k < v@.len(),
{
    let mut n: usize = v.len();
    assert(v@.take(n as int) =~= v@);
    while n > 0
        invariant
            n <= v.len(),
            last_index_of(v@, c) == last_index_of(v@.take(n as int), c),
        decreases n,
    {
        assert(v@.take(n as int).last() == v@[n - 1]);
        assert(v@.take(n as int).drop_last() =~= v@.take(n - 1));
        if v[n - 1] == c {
            return Some(n - 1);
        }
        n = n - 1;
    }
    None
}

/// The last index of a character lies within the sequence and holds that character.
pub proof fn lemma_last_index_of(s: Seq<char>, c: char)
    ensures
        last_index_of(s, c) matches Some(k) ==> 0 <= k < s.len() && s[k] == c,
    decreases s.len(),
{
    if s.len() > 0 && s.last() != c {
        lemma_last_index_of(s.drop_last(), c);
    }
}

fn is_dot_dot(v: &Vec<char>) -> (r: bool)
    ensures
        r == (v@ == seq!['.', '.']),
{
    let r = v.len() == 2 && v[0] == '.' && v[1] == '.';
    proof {
        if r {
            assert(v@ =~= seq!['.', '.']);
        }
    }
    r
}

fn copy_range(v: &Vec<char>, from: usize, to: usize) -> (r: Vec<char>)
    requires
        from <= to <= v.len(),
    ensures
        r@ == v@.subrange(from as int, to as int),
{
    let mut r: Vec<char> = Vec::new();
    let mut i = from;
    while i < to
        invariant
            from <= i <= to,
            to <= v.len(),
            r@ == v@.subrange(from as int, i as int),
        decreases to - i,
    {
        r.push(v[i]);
        i = i + 1;
        assert(r@ =~= v@.subrange(from as int, i as int));
    }
    r
}

/// The file name of a path held as characters.
pub fn file_name_chars(p: &Vec<char>) -> (r: Option<Vec<char>>)
    ensures
        match r {
            Some(n) => file_name(p@) == Some(n@),
            None => file_name(p@) is None,
        },
{
    let comps = components_of(p);
    if comps.len() == 0 {
        return None;
    }
    let last = &comps[comps.len() - 1];
    if is_dot_dot(last) {
        return None;
    }
    assert(comps@[comps@.len() - 1]@ == components(p@).last());
    Some(copy_range(last, 0, last.len()))
}

/// The extension of a path's file name (what `Path::extension` reports).
pub fn extension_of(path: &str) -> (r: Option<String>)
    ensures
        match r {
            Some(e) => path_extension(path@) == Some(e@),
            None => path_extension(path@) is None,
        },
{
    let p = chars_of(path);
    match file_name_chars(&p) {
        None => None,
        Some(name) => {
            if is_dot_dot(&name) {
                return None;
            }
            match last_index(&name, '.') {
                None => None,
                Some(k) => {
                    if k == 0 {
                        None
                    } else {
                        assert(k < name@.len());
                        let e = copy_range(&name, k + 1, name.len());
                        assert(e@ =~= name@.skip(k + 1));
                        Some(string_of(&e))
                    }
                }
            }
        }
    }
}

/// The stem of a path's file name (what `Path::file_stem` reports).
pub fn stem_of(path: &str) -> (r: Option<String>)
    ensures
        match r {
            Some(e) => path_stem(path@) == Some(e@),
            None => path_stem(path@) is None,
        },
{
    let p = chars_of(path);
    match file_name_chars(&p) {
        None => None,
        Some(name) => {
            if is_dot_dot(&name) {
                return Some(string_of(&name));
            }
            match last_index(&name, '.') {
                None => Some(string_of(&name)),
                Some(k) => {
                    if k == 0 {
                        Some(string_of(&name))
                    } else {
                        let e = copy_range(&name, 0, k);
                        assert(e@ =~= name@.take(k as int));
                        Some(string_of(&e))
                    }
                }
            }
        }
    }
}

/// Joins character components with `/`.
pub fn render_components(rooted: bool, comps: &Vec<Vec<char>>, count: usize) -> (r: Vec<char>)
    requires
        count <= comps@.len(),
    ensures
        r@ == render_path(rooted, comps@.take(count as int).map_values(|c: Vec<char>| c@)),
{
    let ghost vs = comps@.take(count as int).map_values(|c: Vec<char>| c@);
    let mut r: Vec<char> = Vec::new();
    if rooted {
        r.push('/');
    }
    let ghost start = r@;
    let mut i: usize = 0;
    while i < count
        invariant
            i <= count <= comps@.len(),
            vs == comps@.take(count as int).map_values(|c: Vec<char>| c@),
            start == (if rooted { seq!['/'] } else { Seq::<char>::empty() }),
            r@ == start + join_with(vs.take(i as int), seq!['/']),
        decreases count - i,
    {
        assert(vs.take(i + 1).drop_last() =~= vs.take(i as int));
        assert(vs[i as int] == comps@[i as int]@);
        if i > 0 {
            r.push('/');
        } else {
            assert(vs.take(1) =~= seq![vs[0]]);
        }
        let part = &comps[i];
        let mut j: usize = 0;
        let ghost before = r@;
        while j < part.len()
            invariant
                j <= part.len(),
                r@ == before + part@.take(j as int),
            decreases part.len() - j,
        {
            r.push(part[j]);
            j = j + 1;
            assert(r@ =~= before + part@.take(j as int));
        }
        assert(part@.take(part.len() as int) =~= part@);
        i = i + 1;
        assert(r@ =~= start + join_with(vs.take(i as int), seq!['/']));
    }
    assert(vs.take(count as int) =~= vs);
    if rooted {
        assert(r@ =~= seq!['/'] + join_with(vs, seq!['/']));
    } else {
        assert(r@ =~= join_with(vs, seq!['/']));
    }
    r
}

/// The directory part of a path (empty when the path has no directory).
pub fn parent_of(path: &str) -> (r: String)
    ensures
        r@ == parent_path(path@),
{
    let p = chars_of(path);
    let comps = components_of(&p);
    if comps.len() == 0 {
        return String::new();
    }
    let rooted = p.len() > 0 && p[0] == '/';
    let v = render_components(rooted, &comps, comps.len() - 1);
    proof {
        let cv = comps@.take(comps@.len() - 1).map_values(|c: Vec<char>| c@);
        assert(cv =~= components(p@).drop_last());
    }
    string_of(&v)
}

/// The components `Path::components` yields for a path: a leading root `/`
/// or current directory `.` when the path starts with one, then the
/// components.
pub open spec fn std_components(p: Seq<char>) -> Seq<Seq<char>> {
    if is_absolute(p) {
        seq![seq!['/']] + components(p)
    } else if p == seq!['.'] || (p.len() >= 2 && p[0] == '.' && p[1] == '/') {
        seq![seq!['.']] + components(p)
    } else {
        components(p)
    }
}

/// The components of a path as `Path::components` yields them, as text.
pub fn path_components(path: &str) -> (r: Vec<String>)
    ensures
        views(r@) == std_components(path@),
{
    let p = chars_of(path);
    let comps = components_of(&p);
    let mut r: Vec<String> = Vec::new();
    if p.len() > 0 && p[0] == '/' {
        r.push(String::from_str("/"));
        proof {
            reveal_strlit("/");
            assert(r@[0]@ =~= seq!['/']);
            assert(views(r@) =~= seq![seq!['/']]);
        }
    } else if (p.len() == 1 && p[0] == '.') || (p.len() >= 2 && p[0] == '.' && p[1] == '/') {
        r.push(String::from_str("."));
        proof {
            reveal_strlit(".");
            assert(r@[0]@ =~= seq!['.']);
            assert(views(r@) =~= seq![seq!['.']]);
            if p.len() == 1 {
                assert(p@ =~= seq!['.']);
            }
        }
    } else {
        proof {
            assert(views(r@) =~= Seq::<Seq<char>>::empty());
            assert(p@ != seq!['.']);
        }
    }
    let ghost start = views(r@);
    assert(std_components(p@) =~= start + components(p@));
    let mut i: usize = 0;
    while i < comps.len()
        invariant
            i <= comps.len(),
            comps@.len() == components(p@).len(),
            forall|k: int| 0 <= k < comps@.len() ==> #[trigger] comps@[k]@ == components(p@)[k],
            start.len() <= 1,
            std_components(p@) == start + components(p@),
            views(r@) == start + components(p@).take(i as int),
        decreases comps.len() - i,
    {
        let ghost old_r = r@;
        r.push(string_of(&comps[i]));
        proof {
            crate::text::lemma_views_push(old_r, r@.last());
            assert(components(p@).take(i + 1) =~= components(p@).take(i as int).push(comps@[i as int]@));
        }
        i = i + 1;
    }
    proof {
        assert(components(p@).take(comps.len() as int) =~= components(p@));
        assert(p@ == path@);
    }
    r
}

} // verus!
