//! Making freshly built recogniser programs find their libraries next to
//! themselves: every `@rpath/` dependency that `otool -L` lists is to be
//! rewritten to `@loader_path/`.
use vstd::prelude::*;

use crate::text::chars::{push_all, split_words, to_chars, to_string, views, words};
use crate::text::phrase_file::{lines_of, split_lines};

verus! {

/// The rewrite a line of `otool -L` output asks for: when its first word is
/// an `@rpath/` reference, that reference and its `@loader_path/` form.
pub open spec fn rpath_fix(line: Seq<char>) -> Option<(Seq<char>, Seq<char>)> {
    let ws = words(line);
    if ws.len() > 0 && ws[0].len() >= 7 && ws[0].take(7) == "@rpath/"@ {
        Some((ws[0], "@loader_path/"@ + ws[0].skip(7)))
    } else {
        None
    }
}

/// The rewrites asked for by the lines, in order.
pub open spec fn rpath_fixes_of(lines: Seq<Seq<char>>) -> Seq<(Seq<char>, Seq<char>)>
    decreases lines.len(),
{
    if lines.len() == 0 {
        seq![]
    } else {
        let d = rpath_fixes_of(lines.drop_last());
        match rpath_fix(lines.last()) {
            Some(f) => d.push(f),
            None => d,
        }
    }
}

/// The `(dependency, replacement)` pairs for `install_name_tool -change`
/// that the output of `otool -L` asks for.
pub fn rpath_fixes(otool_output: &str) -> (r: Vec<(String, String)>)
    ensures
        r@.map_values(|p: (String, String)| (p.0@, p.1@)) == rpath_fixes_of(split_lines(otool_output@)),
{
    let lines = lines_of(to_chars(otool_output).as_slice());
    let ghost ls = views(lines@);
    let prefix = to_chars("@rpath/");
    proof {
        reveal_strlit("@rpath/");
    }
    let mut r: Vec<(String, String)> = Vec::new();
    let mut i: usize = 0;
    while i < lines.len()
        invariant
            i <= lines@.len(),
            ls == views(lines@),
            ls == split_lines(otool_output@),
            prefix@ == "@rpath/"@,
            prefix@.len() == 7,
            r@.map_values(|p: (String, String)| (p.0@, p.1@)) == rpath_fixes_of(ls.take(i as int)),
        decreases lines@.len() - i,
    {
        proof {
            assert(ls.take(i + 1).drop_last() =~= ls.take(i as int));
            assert(ls.take(i + 1).last() == lines@[i as int]@);
        }
        let ws = split_words(lines[i].as_slice());
        if ws.len() > 0 && crate::text::chars::starts_with(ws[0].as_slice(), prefix.as_slice()) {
            let dep = &ws[0];
            proof {
                assert(views(ws@)[0] == dep@);
            }
            let rest = crate::text::chars::sub_chars(dep.as_slice(), 7, dep.len());
            let mut target = to_chars("@loader_path/");
            push_all(&mut target, rest.as_slice());
            let ghost before = r@.map_values(|p: (String, String)| (p.0@, p.1@));
            let pair = (to_string(dep.as_slice()), to_string(target.as_slice()));
            r.push(pair);
            proof {
                assert(rest@ =~= dep@.skip(7));
                assert(r@.map_values(|p: (String, String)| (p.0@, p.1@)) =~= before.push((dep@, "@loader_path/"@ + dep@.skip(7))));
            }
        } else {
            proof {
                if views(ws@).len() > 0 {
                    assert(views(ws@)[0] == ws@[0]@);
                }
            }
        }
        i = i + 1;
    }
    proof {
        assert(ls.take(i as int) =~= ls);
    }
    r
}

} // verus!
