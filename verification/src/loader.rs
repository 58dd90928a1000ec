//! Finding the source file of a module on the module search path.
//!
//! The file system is asked through a resolver: a function from a path to
//! the canonical form of that path when a file exists there.

use vstd::prelude::*;

use crate::errors::{CompErrV, CompilerError, ErrV, Error};
use crate::scanner::{after_last, file_stem, has_file_name, trim_slashes};
use crate::text::{chars_of, chars_of_string, string_from_chars, string_of};

verus! {

/// The key of the kernel module.
pub const KERNEL: &'static str = "std/kernel";

/// The extension of Tardi source files.
pub open spec fn tardi_ext() -> Seq<char> {
    seq!['t', 'a', 'r', 'd', 'i']
}

pub open spec fn starts_with(s: Seq<char>, p: Seq<char>) -> bool {
    p.len() <= s.len() && s.subrange(0, p.len() as int) == p
}

/// A module name relative to the module that names it.
pub open spec fn is_relative(m: Seq<char>) -> bool {
    starts_with(m, seq!['.', '/']) || starts_with(m, seq!['.', '.', '/'])
}

/// `rel` joined onto `base`: an absolute `rel` replaces `base`.
pub open spec fn join_path(base: Seq<char>, rel: Seq<char>) -> Seq<char> {
    if rel.len() > 0 && rel[0] == '/' {
        rel
    } else if base.len() == 0 {
        rel
    } else if base.last() == '/' {
        base + rel
    } else {
        base + seq!['/'] + rel
    }
}

/// The path with its file name's extension set to `tardi`: an extension
/// there is replaced, else one is added; a path without a file name is
/// kept.
pub open spec fn with_tardi_ext(p: Seq<char>) -> Seq<char> {
    let n = after_last(p, '/', p.len() as int);
    let name = p.subrange(n, p.len() as int);
    if name.len() == 0 || name == seq!['.', '.'] {
        p
    } else {
        let d = after_last(name, '.', name.len() as int);
        if d <= 1 {
            p + seq!['.'] + tardi_ext()
        } else {
            p.subrange(0, n + d) + tardi_ext()
        }
    }
}

/// The directory a path is in: `None` for the root and the empty path.
pub open spec fn parent(p: Seq<char>) -> Option<Seq<char>> {
    let t = trim_slashes(p);
    if t.len() == 0 {
        None
    } else {
        let n = after_last(t, '/', t.len() as int);
        if n == 0 {
            Some(seq![])
        } else {
            let pre = trim_slashes(t.subrange(0, n - 1));
            if pre.len() == 0 {
                Some(seq!['/'])
            } else {
                Some(pre)
            }
        }
    }
}

/// `t` below the directory `base`, if it is below it.
pub open spec fn strip_prefix(t: Seq<char>, base: Seq<char>) -> Option<Seq<char>> {
    let b = trim_slashes(base);
    if t == b {
        Some(seq![])
    } else if starts_with(t, b + seq!['/']) {
        Some(t.subrange(b.len() + 1int, t.len() as int))
    } else {
        None
    }
}

/// `s` with every backslash replaced by a slash.
pub open spec fn slashes(s: Seq<char>) -> Seq<char> {
    Seq::new(s.len(), |i: int| if s[i] == '\\' { '/' } else { s[i] })
}

/// The files the search path is asked for, in order, for module `m`.
pub open spec fn candidates(paths: Seq<Seq<char>>, m: Seq<char>) -> Seq<Seq<char>> {
    Seq::new(paths.len(), |i: int| with_tardi_ext(join_path(paths[i], m)))
}

/// The name of a module found at `t` under the first search path that
/// holds it and gives it a name.
pub open spec fn name_under(paths: Seq<Seq<char>>, t: Seq<char>) -> Option<Seq<char>>
    decreases paths.len(),
{
    if paths.len() == 0 {
        None
    } else {
        match name_under(paths.drop_last(), t) {
            Some(n) => Some(n),
            None => match strip_prefix(t, paths.last()) {
                Some(suffix) => if has_file_name(suffix) {
                    Some(slashes(file_stem(suffix)))
                } else {
                    None
                },
                None => None,
            },
        }
    }
}

/// Whether `resolve` answered `out` when asked for the path `p`.
pub open spec fn answered<F: Fn(&str) -> Option<String>>(resolve: F, p: Seq<char>, out: Option<String>) -> bool {
    exists|s: &str| s@ == p && call_ensures(resolve, (s,), out)
}

/// Finds modules on a search path of directories.
#[derive(Debug)]
pub struct Loader {
    /// The directories searched, in order, each in canonical form.
    pub paths: Vec<String>,
}

pub open spec fn strings_v(v: Seq<String>) -> Seq<Seq<char>> {
    Seq::new(v.len(), |i: int| v[i]@)
}

pub(crate) fn starts_with_exec(s: &Vec<char>, p: &Vec<char>) -> (r: bool)
    ensures
        r == starts_with(s@, p@),
{
    if p.len() > s.len() {
        return false;
    }
    let mut i: usize = 0;
    while i < p.len()
        invariant
            p@.len() <= s@.len(),
            i <= p@.len(),
            forall|k: int| 0 <= k < i ==> s@[k] == p@[k],
        decreases p@.len() - i,
    {
        if s[i] != p[i] {
            assert(s@.subrange(0, p@.len() as int)[i as int] != p@[i as int]);
            return false;
        }
        i = i + 1;
    }
    assert(s@.subrange(0, p@.len() as int) =~= p@);
    true
}

fn part(s: &Vec<char>, from: usize, to: usize) -> (r: Vec<char>)
    requires
        from <= to <= s@.len(),
    ensures
        r@ == s@.subrange(from as int, to as int),
{
    crate::text::slice_to_vec(s.as_slice(), from, to)
}

fn after_last_in(s: &Vec<char>, c: char, n: usize) -> (r: usize)
    requires
        n <= s@.len(),
    ensures
        r == after_last(s@, c, n as int),
        r <= n,
{
    proof {
        crate::scanner::lemma_after_last(s@, c, n as int);
    }
    let mut i = n;
    while i > 0
        invariant
            i <= n <= s@.len(),
            after_last(s@, c, i as int) == after_last(s@, c, n as int),
        decreases i,
    {
        if s[i - 1] == c {
            return i;
        }
        i = i - 1;
    }
    0
}

fn trimmed(p: &Vec<char>) -> (r: Vec<char>)
    ensures
        r@ == trim_slashes(p@),
{
    let mut t = p.len();
    proof {
        crate::scanner::lemma_trim_slashes(p@);
    }
    assert(p@.subrange(0, t as int) =~= p@);
    while t > 0 && p[t - 1] == '/'
        invariant
            t <= p@.len(),
            trim_slashes(p@.subrange(0, t as int)) == trim_slashes(p@),
        decreases t,
    {
        assert(p@.subrange(0, t as int).drop_last() =~= p@.subrange(0, t - 1));
        t = t - 1;
    }
    part(p, 0, t)
}

fn join_exec(base: &Vec<char>, rel: &Vec<char>) -> (r: Vec<char>)
    ensures
        r@ == join_path(base@, rel@),
{
    if rel.len() > 0 && rel[0] == '/' {
        return part(rel, 0, rel.len());
    }
    let mut out = part(base, 0, base.len());
    if base.len() > 0 && base[base.len() - 1] != '/' {
        out.push('/');
    }
    crate::text::push_all(&mut out, rel.as_slice());
    assert(out@ =~= join_path(base@, rel@));
    out
}

fn with_ext_exec(p: &Vec<char>) -> (r: Vec<char>)
    ensures
        r@ == with_tardi_ext(p@),
{
    let n = after_last_in(p, '/', p.len());
    let name = part(p, n, p.len());
    proof {
        if name@.len() == 2 && name@[0] == '.' && name@[1] == '.' {
            assert(name@ =~= seq!['.', '.']);
        }
    }
    if name.len() == 0 || (name.len() == 2 && name[0] == '.' && name[1] == '.') {
        return part(p, 0, p.len());
    }
    let d = after_last_in(&name, '.', name.len());
    let mut out = if d <= 1 {
        let mut o = part(p, 0, p.len());
        o.push('.');
        o
    } else {
        part(p, 0, n + d)
    };
    crate::text::push_lit(&mut out, "tardi");
    proof {
        reveal_strlit("tardi");
    }
    assert(out@ =~= with_tardi_ext(p@));
    out
}

fn parent_exec(p: &Vec<char>) -> (r: Option<Vec<char>>)
    ensures
        match parent(p@) {
            Some(q) => r matches Some(v) && v@ == q,
            None => r is None,
        },
{
    let t = trimmed(p);
    if t.len() == 0 {
        return None;
    }
    let n = after_last_in(&t, '/', t.len());
    if n == 0 {
        let v: Vec<char> = Vec::new();
        assert(v@ =~= seq![]);
        return Some(v);
    }
    let pre0 = part(&t, 0, n - 1);
    let pre = trimmed(&pre0);
    if pre.len() == 0 {
        let mut v: Vec<char> = Vec::new();
        v.push('/');
        assert(v@ =~= seq!['/']);
        Some(v)
    } else {
        Some(pre)
    }
}

fn strip_prefix_exec(t: &Vec<char>, base: &Vec<char>) -> (r: Option<Vec<char>>)
    ensures
        match strip_prefix(t@, base@) {
            Some(q) => r matches Some(v) && v@ == q,
            None => r is None,
        },
{
    let b = trimmed(base);
    if crate::text::seq_eq(t.as_slice(), b.as_slice()) {
        let v: Vec<char> = Vec::new();
        assert(v@ =~= seq![]);
        return Some(v);
    }
    let mut bs = part(&b, 0, b.len());
    bs.push('/');
    proof {
        crate::scanner::lemma_trim_slashes(base@);
    }
    assert(bs@ =~= b@ + seq!['/']);
    if starts_with_exec(t, &bs) {
        let k = bs.len();
        Some(part(t, k, t.len()))
    } else {
        None
    }
}

fn slashes_exec(s: &Vec<char>) -> (r: Vec<char>)
    ensures
        r@ == slashes(s@),
{
    let mut out: Vec<char> = Vec::new();
    let mut i: usize = 0;
    while i < s.len()
        invariant
            i <= s@.len(),
            out@ == slashes(s@).take(i as int),
        decreases s@.len() - i,
    {
        let c = s[i];
        out.push(if c == '\\' { '/' } else { c });
        i = i + 1;
        assert(out@ =~= slashes(s@).take(i as int));
    }
    assert(out@ =~= slashes(s@));
    out
}

impl Loader {
    /// A loader over the given directories, which must already be in
    /// canonical form.
    pub fn new(paths: &[String]) -> (r: Loader)
        ensures
            r.paths@ == paths@,
    {
        let mut v: Vec<String> = Vec::new();
        let mut i: usize = 0;
        while i < paths.len()
            invariant
                i <= paths@.len(),
                v@ == paths@.take(i as int),
            decreases paths@.len() - i,
        {
            v.push(paths[i].clone());
            i = i + 1;
            assert(v@ =~= paths@.take(i as int));
        }
        assert(paths@.take(i as int) =~= paths@);
        Loader { paths: v }
    }

    /// The files asked for, in order, when looking for module `module`.
    pub fn candidates(&self, module: &str) -> (r: Vec<String>)
        ensures
            strings_v(r@) == candidates(strings_v(self.paths@), module@),
    {
        let m = chars_of(module);
        let mut out: Vec<String> = Vec::new();
        let mut i: usize = 0;
        let ghost c = candidates(strings_v(self.paths@), module@);
        while i < self.paths.len()
            invariant
                i <= self.paths@.len(),
                m@ == module@,
                c == candidates(strings_v(self.paths@), module@),
                out@.len() == i,
                forall|k: int| 0 <= k < i ==> (#[trigger] out@[k])@ == c[k],
            decreases self.paths@.len() - i,
        {
            let base = chars_of_string(&self.paths[i]);
            let joined = join_exec(&base, &m);
            let target = with_ext_exec(&joined);
            out.push(string_from_chars(target.as_slice()));
            i = i + 1;
        }
        assert(strings_v(out@) =~= c);
        out
    }

    /// Finds module `module`: a relative name (starting `./` or `../`) is
    /// looked up beside `context`, the file of the module that names it;
    /// any other name is looked for under each search directory in turn.
    /// The name found is the module name itself, with the canonical path.
    pub fn find<F: Fn(&str) -> Option<String>>(&self, module: &str, context: Option<&str>, resolve: &F) -> (r:
        Result<Option<(String, String)>, Error>)
        requires
            forall|s: &str| call_requires(*resolve, (s,)),
        ensures
            is_relative(module@) && context is None ==> r is Err && r->Err_0@ == ErrV::CompilerError(
                CompErrV::ModuleNotFound(module@),
            ),
            is_relative(module@) && context is Some ==> match parent(context->0@) {
                None => r is Err && r->Err_0@ == ErrV::CompilerError(
                    CompErrV::InvalidModulePath(context->0@),
                ),
                Some(dir) => found_beside(
                    *resolve,
                    with_tardi_ext(join_path(dir, module@)),
                    strings_v(self.paths@),
                    match r {
                        Ok(x) => Ok(x),
                        Err(e) => Err(e@),
                    },
                ),
            },
            !is_relative(module@) ==> r is Ok && match r->Ok_0 {
                Some((name, path)) => name@ == module@ && exists|i: int|
                    0 <= i < self.paths@.len() && answered(
                        *resolve,
                        #[trigger] candidates(strings_v(self.paths@), module@)[i],
                        Some(path),
                    ) && forall|k: int|
                        0 <= k < i ==> answered(
                            *resolve,
                            #[trigger] candidates(strings_v(self.paths@), module@)[k],
                            None,
                        ),
                None => forall|i: int|
                    0 <= i < self.paths@.len() ==> answered(
                        *resolve,
                        #[trigger] candidates(strings_v(self.paths@), module@)[i],
                        None,
                    ),
            },
    {
        let m = chars_of(module);
        let mut dot: Vec<char> = Vec::new();
        dot.push('.');
        dot.push('/');
        let mut dotdot: Vec<char> = Vec::new();
        dotdot.push('.');
        dotdot.push('.');
        dotdot.push('/');
        assert(dot@ =~= seq!['.', '/']);
        assert(dotdot@ =~= seq!['.', '.', '/']);
        if starts_with_exec(&m, &dot) || starts_with_exec(&m, &dotdot) {
            match context {
                Some(c) => {
                    return match self.find_abs_module(c, module, resolve) {
                        Ok(x) => Ok(x),
                        Err(e) => Err(Error::CompilerError(e)),
                    };
                },
                None => {
                    return Err(Error::CompilerError(CompilerError::ModuleNotFound(string_of(module))));
                },
            }
        }
        let targets = self.candidates(module);
        assert(strings_v(targets@).len() == targets@.len());
        let mut i: usize = 0;
        while i < targets.len()
            invariant
                !is_relative(module@),
                i <= targets@.len(),
                targets@.len() == self.paths@.len(),
                strings_v(targets@) == candidates(strings_v(self.paths@), module@),
                forall|s: &str| call_requires(*resolve, (s,)),
                forall|k: int|
                    0 <= k < i ==> answered(
                        *resolve,
                        #[trigger] candidates(strings_v(self.paths@), module@)[k],
                        None,
                    ),
            decreases targets@.len() - i,
        {
            let t = targets[i].as_str();
            let answer = resolve(t);
            assert(strings_v(targets@)[i as int] == targets@[i as int]@);
            match answer {
                Some(path) => {
                    assert(answered(*resolve, candidates(strings_v(self.paths@), module@)[i as int], Some(path)));
                    return Ok(Some((string_of(module), path)));
                },
                None => {
                    assert(answered(*resolve, candidates(strings_v(self.paths@), module@)[i as int], None));
                },
            }
            i = i + 1;
        }
        Ok(None)
    }

    /// Finds the relative module `target_module` named from the module
    /// file `source_module_path`: its file beside the source, with the name
    /// it has under the first search directory that holds it.
    pub fn find_abs_module<F: Fn(&str) -> Option<String>>(
        &self,
        source_module_path: &str,
        target_module: &str,
        resolve: &F,
    ) -> (r: Result<Option<(String, String)>, CompilerError>)
        requires
            forall|s: &str| call_requires(*resolve, (s,)),
        ensures
            match parent(source_module_path@) {
                None => r is Err && r->Err_0@ == CompErrV::InvalidModulePath(source_module_path@),
                Some(dir) => found_beside(
                    *resolve,
                    with_tardi_ext(join_path(dir, target_module@)),
                    strings_v(self.paths@),
                    match r {
                        Ok(x) => Ok(x),
                        Err(e) => Err(ErrV::CompilerError(e@)),
                    },
                ),
            },
    {
        let src = chars_of(source_module_path);
        let dir = match parent_exec(&src) {
            Some(d) => d,
            None => {
                return Err(CompilerError::InvalidModulePath(string_of(source_module_path)));
            },
        };
        let rel = chars_of(target_module);
        let joined = join_exec(&dir, &rel);
        let target_chars = with_ext_exec(&joined);
        let target = string_from_chars(target_chars.as_slice());
        let canonical = match resolve(target.as_str()) {
            None => {
                assert(answered(*resolve, target_chars@, None));
                return Ok(None);
            },
            Some(t) => t,
        };
        assert(answered(*resolve, target_chars@, Some(canonical)));
        let t = chars_of_string(&canonical);
        let ghost ps = strings_v(self.paths@);
        let ghost target_v = target_chars@;
        let mut i: usize = 0;
        while i < self.paths.len()
            invariant
                i <= self.paths@.len(),
                ps == strings_v(self.paths@),
                t@ == canonical@,
                parent(source_module_path@) == Some(dir@),
                target_v == with_tardi_ext(join_path(dir@, target_module@)),
                answered(*resolve, target_v, Some(canonical)),
                name_under(ps.take(i as int), t@) is None,
            decreases self.paths@.len() - i,
        {
            assert(ps.take(i + 1).drop_last() =~= ps.take(i as int));
            assert(ps.take(i + 1).last() == self.paths@[i as int]@);
            let base = chars_of_string(&self.paths[i]);
            match strip_prefix_exec(&t, &base) {
                Some(suffix) => {
                    let suffix_str = string_from_chars(suffix.as_slice());
                    if has_file_name_exec(&suffix) {
                        let stem = crate::scanner::file_stem_of(&suffix_str);
                        let stem_chars = chars_of_string(&stem);
                        let name = slashes_exec(&stem_chars);
                        proof {
                            assert(name_under(ps.take(i + 1), t@) == Some(name@));
                            lemma_name_under_prefix(ps, t@, i + 1);
                        }
                        return Ok(Some((string_from_chars(name.as_slice()), canonical)));
                    }
                },
                None => {},
            }
            i = i + 1;
        }
        assert(ps.take(i as int) =~= ps);
        Err(CompilerError::InvalidModulePath(canonical))
    }
}

/// What looking for a relative module's file `target` may give: nothing
/// when no file is there; else the file with the name it has under the
/// search path, or, when it lies under none of it, an invalid path.
pub open spec fn found_beside<F: Fn(&str) -> Option<String>>(
    resolve: F,
    target: Seq<char>,
    paths: Seq<Seq<char>>,
    r: Result<Option<(String, String)>, ErrV>,
) -> bool {
    match r {
        Ok(None) => answered(resolve, target, None),
        Ok(Some((name, path))) => answered(resolve, target, Some(path)) && name_under(paths, path@)
            == Some(name@),
        Err(e) => exists|x: String|
            answered(resolve, target, Some(x)) && name_under(paths, x@) is None && e
                == ErrV::CompilerError(CompErrV::InvalidModulePath(x@)),
    }
}

fn has_file_name_exec(p: &Vec<char>) -> (r: bool)
    ensures
        r == has_file_name(p@),
{
    let t = trimmed(p);
    let n = after_last_in(&t, '/', t.len());
    let name = part(&t, n, t.len());
    let r = name.len() > 0 && !(name.len() == 1 && name[0] == '.') && !(name.len() == 2 && name[0] == '.'
        && name[1] == '.');
    proof {
        if name@.len() == 2 && name@[0] == '.' && name@[1] == '.' {
            assert(name@ =~= seq!['.', '.']);
        }
        if name@.len() == 1 && name@[0] == '.' {
            assert(name@ =~= seq!['.']);
        }
        assert(name@ == file_name_of_trimmed(t@));
    }
    r
}

pub open spec fn file_name_of_trimmed(t: Seq<char>) -> Seq<char> {
    t.subrange(after_last(t, '/', t.len() as int), t.len() as int)
}

/// Once a prefix of the search path names a module, the whole path names
/// it the same.
pub proof fn lemma_name_under_prefix(ps: Seq<Seq<char>>, t: Seq<char>, k: int)
    requires
        0 <= k <= ps.len(),
        name_under(ps.take(k), t) is Some,
    ensures
        name_under(ps, t) == name_under(ps.take(k), t),
    decreases ps.len() - k,
{
    if k < ps.len() {
        assert(ps.take(k + 1).drop_last() =~= ps.take(k));
        lemma_name_under_prefix(ps, t, k + 1);
    } else {
        assert(ps.take(k) =~= ps);
    }
}

} // verus!
