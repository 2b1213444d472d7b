//! Reading a cookies file in the Netscape format: one cookie per line, seven
//! tab-separated fields (domain, flag, path, secure, expiry, name, value).
use crate::external::{url_is_valid, url_parses};
use crate::text::{
    append_chars, append_str, ascii_lower, ascii_lower_char, chars_eq_str, chars_of, index_of,
    index_of_vec_from, lemma_index_of_from, split_char, split_char_vec, starts_with,
    starts_with_str, string_from, sub_vec, trim, trim_start_class, trim_start_class_vec,
    trim_vec, vecs_view, CharClass,
};
use vstd::prelude::*;

verus! {

broadcast use vstd::string::group_string_axioms;

/// The fields of a line split at its tabs into at most `n` pieces, the last
/// holding the rest of the line (as `str::splitn` gives them).
pub open spec fn splitn_tab(s: Seq<char>, n: nat) -> Seq<Seq<char>>
    decreases n,
{
    if n <= 1 {
        seq![s]
    } else {
        match index_of(s, '\t') {
            Some(k) => seq![s.subrange(0, k)] + splitn_tab(s.subrange(k + 1, s.len() as int), (n - 1) as nat),
            None => seq![s],
        }
    }
}

/// `a` equals `b` up to ASCII case.
pub open spec fn eq_ignore_ascii_case(a: Seq<char>, b: Seq<char>) -> bool {
    a.len() == b.len() && forall|i: int| 0 <= i < a.len() ==> ascii_lower(a[i]) == ascii_lower(b[i])
}

/// A cookie to add: the URL it belongs to and its `name=value` text.
#[derive(Debug)]
pub struct CookieEntry {
    pub url: String,
    pub cookie: String,
}

/// The URL and the cookie text a line stands for, when it has seven fields:
/// `https` for a secure cookie (`TRUE` in any case), else `http`, and the
/// domain without its leading dots.
pub open spec fn line_cookie(line: Seq<char>) -> Option<(Seq<char>, Seq<char>)> {
    let t = trim(line);
    let f = splitn_tab(t, 7);
    if t.len() == 0 || starts_with(t, "#"@) || f.len() < 7 {
        None
    } else {
        let scheme = if eq_ignore_ascii_case(f[3], "true"@) {
            "https"@
        } else {
            "http"@
        };
        Some(
            (
                scheme + "://"@ + trim_start_class(f[0], CharClass::Dot) + "/"@,
                f[5] + "="@ + f[6],
            ),
        )
    }
}

/// The cookies of the lines, in order, keeping those whose URL parses.
pub open spec fn lines_cookies(lines: Seq<Seq<char>>) -> Seq<(Seq<char>, Seq<char>)>
    decreases lines.len(),
{
    if lines.len() == 0 {
        Seq::empty()
    } else {
        let prev = lines_cookies(lines.drop_last());
        match line_cookie(lines.last()) {
            Some(c) => if url_parses(c.0) {
                prev.push(c)
            } else {
                prev
            },
            None => prev,
        }
    }
}

/// The cookies a file holds. Lines are cut at `\n`; a `\r` before it goes
/// with the white space that each line is trimmed of.
pub open spec fn spec_netscape_cookies(content: Seq<char>) -> Seq<(Seq<char>, Seq<char>)> {
    lines_cookies(split_char(content, '\n'))
}

pub open spec fn entries_view(v: Seq<CookieEntry>) -> Seq<(Seq<char>, Seq<char>)> {
    v.map_values(|e: CookieEntry| (e.url@, e.cookie@))
}

fn splitn_tab_vec(s: &Vec<char>, n: usize) -> (r: Vec<Vec<char>>)
    requires
        n >= 1,
    ensures
        vecs_view(r@) == splitn_tab(s@, n as nat),
{
    let mut out: Vec<Vec<char>> = Vec::new();
    let mut start: usize = 0;
    let mut left: usize = n;
    assert(s@.subrange(0, s@.len() as int) =~= s@);
    assert(vecs_view(out@) + splitn_tab(s@.subrange(0, s@.len() as int), n as nat) =~= splitn_tab(
        s@,
        n as nat,
    ));
    loop
        invariant
            start <= s.len(),
            left >= 1,
            vecs_view(out@) + splitn_tab(s@.subrange(start as int, s.len() as int), left as nat)
                == splitn_tab(s@, n as nat),
        decreases left,
    {
        let ghost rest = s@.subrange(start as int, s.len() as int);
        let ghost before = vecs_view(out@);
        if left == 1 {
            let piece = sub_vec(s, start, s.len());
            out.push(piece);
            assert(vecs_view(out@) =~= before + seq![rest]);
            return out;
        }
        proof {
            lemma_index_of_from(rest, '\t', 0);
            lemma_index_of_from(s@, '\t', start as int);
        }
        match index_of_vec_from(s, '\t', start) {
            Some(k) => {
                proof {
                    assert(index_of(rest, '\t') == Some(k - start)) by {
                        assert(rest[k - start] == '\t');
                        assert forall|j: int| 0 <= j < k - start implies rest[j] != '\t' by {
                            assert(rest[j] == s@[start + j]);
                        }
                        crate::text::lemma_index_of_unique(rest, '\t', k - start);
                    }
                    assert(rest.subrange(0, k - start) =~= s@.subrange(start as int, k as int));
                    assert(rest.subrange(k - start + 1, rest.len() as int) =~= s@.subrange(
                        k + 1,
                        s.len() as int,
                    ));
                }
                let piece = sub_vec(s, start, k);
                out.push(piece);
                assert(vecs_view(out@) =~= before.push(s@.subrange(start as int, k as int)));
                assert(vecs_view(out@) + splitn_tab(s@.subrange(k + 1, s.len() as int), (left - 1) as nat)
                    =~= before + splitn_tab(rest, left as nat));
                start = k + 1;
                left = left - 1;
            },
            None => {
                proof {
                    assert(index_of(rest, '\t') is None) by {
                        if index_of(rest, '\t') is Some {
                            let k = index_of(rest, '\t')->0;
                            assert(rest[k] == s@[start + k]);
                        }
                    }
                }
                let piece = sub_vec(s, start, s.len());
                out.push(piece);
                assert(vecs_view(out@) =~= before + seq![rest]);
                return out;
            },
        }
    }
}

fn eq_ignore_ascii_case_vec(a: &Vec<char>, b: &str) -> (r: bool)
    ensures
        r == eq_ignore_ascii_case(a@, b@),
{
    let bv = chars_of(b);
    if a.len() != bv.len() {
        return false;
    }
    let mut i: usize = 0;
    while i < a.len()
        invariant
            i <= a.len() == bv.len(),
            bv@ == b@,
            forall|j: int| 0 <= j < i ==> ascii_lower(a@[j]) == ascii_lower(bv@[j]),
        decreases a.len() - i,
    {
        if ascii_lower_char(a[i]) != ascii_lower_char(bv[i]) {
            return false;
        }
        i = i + 1;
    }
    true
}

fn line_cookie_exec(line: &Vec<char>) -> (r: Option<(String, String)>)
    ensures
        match r {
            Some((u, c)) => line_cookie(line@) == Some((u@, c@)),
            None => line_cookie(line@) is None,
        },
{
    let t = trim_vec(line);
    if t.len() == 0 || starts_with_str(&t, "#") {
        return None;
    }
    let f = splitn_tab_vec(&t, 7);
    if f.len() < 7 {
        return None;
    }
    assert(vecs_view(f@)[0] == f@[0]@ && vecs_view(f@)[3] == f@[3]@ && vecs_view(f@)[5] == f@[5]@
        && vecs_view(f@)[6] == f@[6]@);
    let domain = trim_start_class_vec(&f[0], CharClass::Dot);
    let secure = eq_ignore_ascii_case_vec(&f[3], "true");
    let mut url = if secure {
        chars_of("https")
    } else {
        chars_of("http")
    };
    append_str(&mut url, "://");
    append_chars(&mut url, &domain);
    append_str(&mut url, "/");
    let mut cookie = sub_vec(&f[5], 0, f[5].len());
    append_str(&mut cookie, "=");
    append_chars(&mut cookie, &f[6]);
    assert(f@[5]@.subrange(0, f@[5]@.len() as int) =~= f@[5]@);
    Some((string_from(&url), string_from(&cookie)))
}

/// The cookies of a Netscape cookies file whose URLs parse, in file order.
pub fn netscape_cookies(content: &str) -> (r: Vec<CookieEntry>)
    ensures
        entries_view(r@) == spec_netscape_cookies(content@),
{
    let v = chars_of(content);
    let lines = split_char_vec(&v, '\n');
    let ghost lv = vecs_view(lines@);
    let mut out: Vec<CookieEntry> = Vec::new();
    let mut i: usize = 0;
    assert(lv.take(0) =~= Seq::<Seq<char>>::empty());
    assert(entries_view(out@) =~= Seq::<(Seq<char>, Seq<char>)>::empty());
    while i < lines.len()
        invariant
            i <= lines.len(),
            lv == vecs_view(lines@),
            lv == split_char(content@, '\n'),
            entries_view(out@) == lines_cookies(lv.take(i as int)),
        decreases lines.len() - i,
    {
        proof {
            assert(lv.take(i + 1).drop_last() =~= lv.take(i as int));
            assert(lv.take(i + 1).last() == lv[i as int]);
            assert(lv[i as int] == lines@[i as int]@);
        }
        let ghost before = entries_view(out@);
        match line_cookie_exec(&lines[i]) {
            Some((u, c)) => {
                if url_is_valid(u.as_str()) {
                    let ghost e = (u@, c@);
                    out.push(CookieEntry { url: u, cookie: c });
                    assert(entries_view(out@) =~= before.push(e));
                }
            },
            None => {},
        }
        i = i + 1;
    }
    assert(lv.take(lines.len() as int) =~= lv);
    out
}

} // verus!
