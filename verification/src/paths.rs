//! Path operations on slash-separated paths held as text.

use crate::text::{chars_of, push_all, string_from};
use vstd::prelude::*;

verus! {

/// The last piece between slashes that is neither empty nor `.`, scanning
/// `s[..j]` backwards; `None` when there is none.
pub open spec fn last_piece_before(s: Seq<char>, j: int) -> Option<Seq<char>>
    decreases j,
{
    if j <= 0 || j > s.len() {
        None
    } else {
        let start = last_slash_before(s, j);
        let piece = s.subrange(start, j);
        if piece.len() > 0 && piece != "."@ {
            Some(piece)
        } else if 1 <= start && start - 1 < j {
            last_piece_before(s, start - 1)
        } else {
            None
        }
    }
}

/// The index just after the last `'/'` in `s[..j]`, or 0.
pub open spec fn last_slash_before(s: Seq<char>, j: int) -> int
    decreases j,
{
    if j <= 0 {
        0
    } else if s[j - 1] == '/' {
        j
    } else {
        last_slash_before(s, j - 1)
    }
}

pub proof fn lemma_last_slash(s: Seq<char>, j: int)
    requires
        0 <= j <= s.len(),
    ensures
        0 <= last_slash_before(s, j) <= j,
        last_slash_before(s, j) > 0 ==> s[last_slash_before(s, j) - 1] == '/',
        forall|k: int| last_slash_before(s, j) <= k < j ==> #[trigger] s[k] != '/',
    decreases j,
{
    if j > 0 && s[j - 1] != '/' {
        lemma_last_slash(s, j - 1);
    }
}

/// The final component of a path.
pub open spec fn final_component(s: Seq<char>) -> Option<Seq<char>> {
    match last_piece_before(s, s.len() as int) {
        Some(p) => if p == ".."@ {
            None
        } else {
            Some(p)
        },
        None => None,
    }
}

/// The final component of a path (`Path::file_name`): the last piece between
/// slashes that is neither empty nor `.`, or `None` when there is none or it
/// is `..`.
pub fn file_name(path: &str) -> (r: Option<String>)
    ensures
        r matches Some(n) ==> final_component(path@) == Some(n@),
        r is None ==> final_component(path@) is None,
{
    let s = chars_of(path);
    let mut j: usize = s.len();
    loop
        invariant
            s@ == path@,
            j <= s@.len(),
            last_piece_before(s@, j as int) == last_piece_before(s@, s@.len() as int),
        decreases j,
    {
        if j == 0 {
            proof {
                assert(last_piece_before(s@, 0) is None);
            }
            return None;
        }
        let mut start: usize = j;
        while start > 0 && s[start - 1] != '/'
            invariant
                start <= j <= s@.len(),
                last_slash_before(s@, start as int) == last_slash_before(s@, j as int),
            decreases start,
        {
            start -= 1;
        }
        proof {
            lemma_last_slash(s@, j as int);
            lemma_last_slash(s@, start as int);
            assert(start == last_slash_before(s@, j as int));
        }
        let len = j - start;
        let is_dot = len == 1 && s[start] == '.';
        proof {
            let piece = s@.subrange(start as int, j as int);
            reveal_strlit(".");
            if len == 1 {
                if s@[start as int] == '.' {
                    assert(piece =~= "."@);
                } else {
                    assert(piece[0] != "."@[0]);
                }
            } else {
                assert(piece.len() != "."@.len());
            }
        }
        if len > 0 && !is_dot {
            let is_parent = len == 2 && s[start] == '.' && s[start + 1] == '.';
            proof {
                let piece = s@.subrange(start as int, j as int);
                reveal_strlit("..");
                if len == 2 {
                    if s@[start as int] == '.' && s@[start + 1] == '.' {
                        assert(piece =~= ".."@);
                    } else if s@[start as int] != '.' {
                        assert(piece[0] != ".."@[0]);
                    } else {
                        assert(piece[1] != ".."@[1]);
                    }
                } else {
                    assert(piece.len() != ".."@.len());
                }
            }
            proof {
                assert(last_piece_before(s@, j as int) == Some(s@.subrange(start as int, j as int)));
            }
            if is_parent {
                return None;
            }
            let mut piece: Vec<char> = Vec::new();
            let mut k = start;
            while k < j
                invariant
                    start <= k <= j <= s@.len(),
                    piece@ == s@.subrange(start as int, k as int),
                decreases j - k,
            {
                piece.push(s[k]);
                k += 1;
                proof {
                    assert(s@.subrange(start as int, k as int) == s@.subrange(start as int, k - 1).push(
                        s@[k - 1],
                    ));
                }
            }
            return Some(string_from(piece.as_slice()));
        }
        if start == 0 {
            proof {
                assert(last_piece_before(s@, j as int) is None);
            }
            return None;
        }
        j = start - 1;
    }
}

/// `base` joined with `rel` (`Path::join`): `rel` itself when it is
/// absolute, otherwise `base`, a `/` unless `base` is empty or already ends
/// with one, and `rel`.
pub open spec fn join_spec(base: Seq<char>, rel: Seq<char>) -> Seq<char> {
    if rel.len() > 0 && rel[0] == '/' {
        rel
    } else if base.len() == 0 || base.last() == '/' {
        base + rel
    } else {
        base + seq!['/'] + rel
    }
}

/// Joins a relative path onto a base path.
pub fn join(base: &str, rel: &str) -> (r: String)
    ensures
        r@ == join_spec(base@, rel@),
{
    let b = chars_of(base);
    let r = chars_of(rel);
    if r.len() > 0 && r[0] == '/' {
        return string_from(r.as_slice());
    }
    let mut out = b;
    if out.len() > 0 && out[out.len() - 1] != '/' {
        out.push('/');
    }
    push_all(&mut out, r.as_slice());
    string_from(out.as_slice())
}

} // verus!
