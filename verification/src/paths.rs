use crate::fuzzy::str_chars;
use crate::strutil::chars_to_string;
use vstd::prelude::*;
use vstd::string::StrSliceExecFns;
use vstd::string::StringExecFns;

verus! {

/// Where the last slash-separated component of `p` begins: the position
/// right after the last `/`, or 0 when there is none.
pub open spec fn comp_start(p: Seq<char>) -> int
    decreases p.len(),
{
    if p.len() == 0 {
        0
    } else if p.last() == '/' {
        p.len() as int
    } else {
        comp_start(p.drop_last())
    }
}

proof fn lemma_comp_start_bounds(p: Seq<char>)
    ensures
        0 <= comp_start(p) <= p.len(),
        p.len() > 0 && p.last() != '/' ==> comp_start(p) < p.len(),
    decreases p.len(),
{
    if p.len() > 0 && p.last() != '/' {
        lemma_comp_start_bounds(p.drop_last());
    }
}

/// The final file name of a path, as paths name files: trailing slashes
/// and `.` components are ignored, and a path that ends in `..` or runs
/// out of components names no file.
pub open spec fn file_name_of(p: Seq<char>) -> Option<Seq<char>>
    decreases p.len(),
    via file_name_of_decreases
{
    if p.len() == 0 {
        None
    } else if p.last() == '/' {
        file_name_of(p.drop_last())
    } else {
        let s = comp_start(p);
        let comp = p.subrange(s, p.len() as int);
        if comp == seq!['.'] {
            file_name_of(p.subrange(0, s))
        } else if comp == seq!['.', '.'] {
            None
        } else {
            Some(comp)
        }
    }
}

#[via_fn]
proof fn file_name_of_decreases(p: Seq<char>) {
    lemma_comp_start_bounds(p);
}

/// The path ends in the two characters `..`.
pub open spec fn ends_dotdot(p: Seq<char>) -> bool {
    p.len() >= 2 && p[p.len() - 1] == '.' && p[p.len() - 2] == '.'
}

/// The name shown for a path: its file name where it has one, `..` for a
/// path that ends so, and `Unknown` otherwise.
pub open spec fn display_name_of(p: Seq<char>) -> Seq<char> {
    match file_name_of(p) {
        Some(n) => n,
        None => if ends_dotdot(p) {
            ".."@
        } else {
            "Unknown"@
        },
    }
}

/// The file name a path's entry is matched under, if the path names one.
pub fn safe_filename_for_matching(path: &str) -> (r: Option<String>)
    ensures
        (match r {
            Some(s) => file_name_of(path@) == Some(s@),
            None => file_name_of(path@) is None,
        }),
{
    let cs = str_chars(path);
    let n = cs.len();
    let mut end: usize = n;
    proof {
        assert(cs@.subrange(0, n as int) =~= cs@);
    }
    loop
        invariant
            end <= n,
            n == cs@.len(),
            cs@ == path@,
            file_name_of(path@) == file_name_of(cs@.subrange(0, end as int)),
        decreases end,
    {
        let ghost entry_end = end;
        while end > 0 && cs[end - 1] == '/'
            invariant
                end <= entry_end,
                entry_end <= n,
                n == cs@.len(),
                cs@ == path@,
                file_name_of(path@) == file_name_of(cs@.subrange(0, end as int)),
            decreases end,
        {
            proof {
                assert(cs@.subrange(0, end as int).last() == cs@[end - 1]);
                assert(cs@.subrange(0, end as int).drop_last() =~= cs@.subrange(0, end - 1));
            }
            end = end - 1;
        }
        if end == 0 {
            proof {
                assert(cs@.subrange(0, 0) =~= Seq::<char>::empty());
            }
            return None;
        }
        let ghost q = cs@.subrange(0, end as int);
        proof {
            assert(q.last() == cs@[end - 1]);
        }
        let mut st: usize = end;
        while st > 0 && cs[st - 1] != '/'
            invariant
                st <= end,
                end <= n,
                n == cs@.len(),
                comp_start(q) == comp_start(cs@.subrange(0, st as int)),
                forall|k: int| st <= k < end ==> cs@[k] != '/',
            decreases st,
        {
            proof {
                assert(cs@.subrange(0, st as int).last() == cs@[st - 1]);
                assert(cs@.subrange(0, st as int).drop_last() =~= cs@.subrange(0, st - 1));
            }
            st = st - 1;
        }
        proof {
            if st > 0 {
                assert(cs@.subrange(0, st as int).last() == cs@[st - 1]);
            } else {
                assert(cs@.subrange(0, 0) =~= Seq::<char>::empty());
            }
            assert(comp_start(q) == st as int);
            assert(q.subrange(st as int, end as int) =~= cs@.subrange(st as int, end as int));
        }
        let ghost comp = q.subrange(comp_start(q), q.len() as int);
        if end - st == 1 && cs[st] == '.' {
            proof {
                assert(comp =~= seq!['.']);
                assert(q.subrange(0, st as int) =~= cs@.subrange(0, st as int));
            }
            end = st;
        } else if end - st == 2 && cs[st] == '.' && cs[st + 1] == '.' {
            proof {
                assert(comp =~= seq!['.', '.']);
            }
            return None;
        } else {
            proof {
                assert(comp == cs@.subrange(st as int, end as int));
                if comp == seq!['.'] {
                    assert(comp.len() == 1);
                    assert(cs@[st as int] == comp[0]);
                    assert(false);
                }
                if comp == seq!['.', '.'] {
                    assert(comp.len() == 2);
                    assert(cs@[st as int] == comp[0]);
                    assert(cs@[st as int + 1] == comp[1]);
                    assert(false);
                }
            }
            return Some(chars_to_string(&cs, st, end));
        }
    }
}

/// The name shown for a path, per [`display_name_of`].
pub fn safe_filename_to_string(path: &str) -> (r: String)
    ensures
        r@ == display_name_of(path@),
{
    match safe_filename_for_matching(path) {
        Some(s) => s,
        None => {
            let n = path.unicode_len();
            if n >= 2 && path.get_char(n - 1) == '.' && path.get_char(n - 2) == '.' {
                String::from_str("..")
            } else {
                String::from_str("Unknown")
            }
        },
    }
}

} // verus!
