//! Output file names: `%(field)s` templates and file-name sanitizing.
use crate::external::{file_name_of, parent_of, path_file_name, path_parent};
use crate::text::{utf8_width, utf8_width_of, 
    append_chars, append_str, chars_of, decimal, decimal_vec, replace_all, replace_vec,
    string_from, sub_vec, trim_class, trim_class_vec, trim_end_class, trim_end_class_vec,
    CharClass, is_ascii_alnum, utf8_len, lemma_utf8_len_nonneg, lemma_left_end_bounds,
    lemma_right_end_bounds, class_has, left_end, right_end,
};
use crate::types::{opt_view, VideoInfo};
use crate::utils::{format_clock, spec_format_clock};
use vstd::prelude::*;

verus! {

broadcast use vstd::string::group_string_axioms;

// ───────────────────────── templates ─────────────────────────

pub open spec fn or_empty(o: Option<Seq<char>>) -> Seq<char> {
    match o {
        Some(s) => s,
        None => Seq::empty(),
    }
}

/// A number written with at least three digits (`{:03}`).
pub open spec fn pad3(n: nat) -> Seq<char> {
    let d = decimal(n);
    if d.len() >= 3 {
        d
    } else if d.len() == 2 {
        seq!['0'] + d
    } else {
        seq!['0', '0'] + d
    }
}

pub open spec fn number_or_empty(o: Option<u64>) -> Seq<char> {
    match o {
        Some(n) => decimal(n as nat),
        None => Seq::empty(),
    }
}

/// A duration in whole seconds, as `MM:SS` or `HH:MM:SS`.
pub open spec fn spec_format_duration(secs: nat) -> Seq<char> {
    spec_format_clock(secs)
}

/// The placeholders of an output template and what each stands for, in the
/// order they are replaced.
pub open spec fn template_pairs(info: VideoInfo, ext: Seq<char>) -> Seq<(Seq<char>, Seq<char>)> {
    seq![
        ("%(id)s"@, info.id@),
        ("%(title)s"@, info.title@),
        ("%(ext)s"@, ext),
        ("%(uploader)s"@, or_empty(opt_view(info.uploader))),
        ("%(uploader_id)s"@, or_empty(opt_view(info.uploader_id))),
        ("%(channel)s"@, or_empty(opt_view(info.channel))),
        ("%(channel_id)s"@, or_empty(opt_view(info.channel_id))),
        ("%(upload_date)s"@, or_empty(opt_view(info.upload_date))),
        ("%(description)s"@, or_empty(opt_view(info.description))),
        ("%(duration)s"@, match info.duration {
            Some(d) => spec_format_duration(d as nat),
            None => Seq::empty(),
        }),
        ("%(view_count)s"@, number_or_empty(info.view_count)),
        ("%(like_count)s"@, number_or_empty(info.like_count)),
        ("%(playlist_index)s"@, match info.playlist_index {
            Some(i) => pad3(i as nat),
            None => Seq::empty(),
        }),
        ("%(playlist)s"@, or_empty(opt_view(info.playlist))),
        ("%(playlist_id)s"@, or_empty(opt_view(info.playlist_id))),
        ("%(webpage_url)s"@, info.webpage_url@),
        ("%(extractor)s"@, info.extractor@),
    ]
}

/// `s` after replacing, one placeholder after another from the `i`-th on,
/// every occurrence of the placeholder by its value.
pub open spec fn replace_each(s: Seq<char>, pairs: Seq<(Seq<char>, Seq<char>)>, i: int) -> Seq<char>
    decreases pairs.len() - i,
{
    if i < 0 || i >= pairs.len() {
        s
    } else {
        replace_each(replace_all(s, pairs[i].0, pairs[i].1), pairs, i + 1)
    }
}

/// A template with its `%(field)s` placeholders filled in; unknown
/// placeholders stay as they are.
pub open spec fn spec_expand_template(template: Seq<char>, info: VideoInfo, ext: Seq<char>) -> Seq<
    char,
> {
    replace_each(template, template_pairs(info, ext), 0)
}

proof fn lemma_replace_absent(s: Seq<char>, pat: Seq<char>, rep: Seq<char>, i: int)
    requires
        pat.len() > 0,
        forall|j: int| i <= j < s.len() ==> s[j] != pat[0],
        0 <= i <= s.len(),
    ensures
        crate::text::replace_from(s, pat, rep, i) == s.subrange(i, s.len() as int),
    decreases s.len() - i,
{
    if i < s.len() {
        assert(!crate::text::matches_at(s, pat, i)) by {
            if crate::text::matches_at(s, pat, i) {
                assert(s.subrange(i, i + pat.len())[0] == s[i]);
            }
        }
        lemma_replace_absent(s, pat, rep, i + 1);
        assert(seq![s[i]] + s.subrange(i + 1, s.len() as int) =~= s.subrange(i, s.len() as int));
    } else {
        assert(s.subrange(i, s.len() as int) =~= Seq::<char>::empty());
    }
}

proof fn lemma_replace_each_absent(s: Seq<char>, pairs: Seq<(Seq<char>, Seq<char>)>, i: int)
    requires
        forall|k: int| 0 <= k < pairs.len() ==> (#[trigger] pairs[k]).0.len() > 0 && pairs[k].0[0] == '%',
        forall|j: int| 0 <= j < s.len() ==> s[j] != '%',
        0 <= i,
    ensures
        replace_each(s, pairs, i) == s,
    decreases pairs.len() - i,
{
    if i < pairs.len() {
        let p = pairs[i];
        lemma_replace_absent(s, p.0, p.1, 0);
        assert(s.subrange(0, s.len() as int) =~= s);
        lemma_replace_each_absent(s, pairs, i + 1);
    }
}

/// No `c` in `s[i..end]`.
pub open spec fn lacks_between(s: Seq<char>, c: char, i: int, end: int) -> bool
    decreases end - i,
{
    if i < 0 || i >= end || i >= s.len() {
        true
    } else {
        s[i] != c && lacks_between(s, c, i + 1, end)
    }
}

proof fn lemma_lacks_between(s: Seq<char>, c: char, i: int, end: int)
    requires
        0 <= i,
        end <= s.len(),
        lacks_between(s, c, i, end),
    ensures
        forall|j: int| i <= j < end ==> s[j] != c,
    decreases end - i,
{
    if i < end {
        lemma_lacks_between(s, c, i + 1, end);
    }
}

/// A placeholder `%(name)s`: a `%` only at its start, and a `)` only just
/// before its final character.
pub open spec fn is_placeholder(p: Seq<char>) -> bool {
    &&& p.len() >= 3
    &&& p[0] == '%'
    &&& p[p.len() - 2] == ')'
    &&& lacks_between(p, '%', 1, p.len() as int)
    &&& lacks_between(p, ')', 0, p.len() - 2)
}

/// No `%` anywhere in `s`.
pub open spec fn no_percent(s: Seq<char>) -> bool {
    forall|j: int| 0 <= j < s.len() ==> s[j] != '%'
}

/// Replacing one placeholder leaves a different placeholder alone, and
/// turns the same placeholder into its value.
proof fn lemma_replace_placeholder(p: Seq<char>, q: Seq<char>, v: Seq<char>)
    requires
        is_placeholder(p),
        is_placeholder(q),
    ensures
        p != q ==> replace_all(p, q, v) == p,
        replace_all(p, p, v) == v,
{
    lemma_lacks_between(p, '%', 1, p.len() as int);
    lemma_lacks_between(p, ')', 0, p.len() - 2);
    lemma_lacks_between(q, ')', 0, q.len() - 2);
    assert(p.subrange(0, p.len() as int) =~= p);
    assert(crate::text::replace_from(p, p, v, p.len() as int) == Seq::<char>::empty());
    assert(v + Seq::<char>::empty() =~= v);
    if p != q {
        if crate::text::matches_at(p, q, 0) {
            let t = p.subrange(0, q.len() as int);
            assert(t == q);
            if q.len() == p.len() {
                assert(p =~= q);
            } else {
                assert(t[q.len() - 2] == p[q.len() - 2]);
            }
        }
        lemma_replace_absent(p, q, v, 1);
        assert(seq![p[0]] + p.subrange(1, p.len() as int) =~= p);
    }
}

/// Filling in the placeholders one after another, from the `i`-th on, turns
/// the `k`-th placeholder into its value when no earlier key is the same
/// and the value holds no `%`.
proof fn lemma_replace_each_placeholder(pairs: Seq<(Seq<char>, Seq<char>)>, k: int, i: int)
    requires
        0 <= i <= k < pairs.len(),
        forall|j: int| 0 <= j < pairs.len() ==> is_placeholder(#[trigger] pairs[j].0),
        forall|j: int| 0 <= j < k ==> #[trigger] pairs[j].0 != pairs[k].0,
        no_percent(pairs[k].1),
    ensures
        replace_each(pairs[k].0, pairs, i) == pairs[k].1,
    decreases k - i,
{
    let p = pairs[k].0;
    if i < k {
        lemma_replace_placeholder(p, pairs[i].0, pairs[i].1);
        lemma_replace_each_placeholder(pairs, k, i + 1);
    } else {
        lemma_replace_placeholder(p, p, pairs[k].1);
        assert forall|j: int| 0 <= j < pairs.len() implies (#[trigger] pairs[j]).0.len() > 0
            && pairs[j].0[0] == '%' by {
            assert(is_placeholder(pairs[j].0));
        }
        lemma_replace_each_absent(pairs[k].1, pairs, k + 1);
    }
}

/// The keys of the template table are placeholders, and none repeats an
/// earlier one.
proof fn lemma_template_keys(info: VideoInfo, ext: Seq<char>, k: int)
    requires
        0 <= k < 17,
    ensures
        template_pairs(info, ext).len() == 17,
        forall|j: int| 0 <= j < 17 ==> is_placeholder(#[trigger] template_pairs(info, ext)[j].0),
        forall|j: int| 0 <= j < k ==> #[trigger] template_pairs(info, ext)[j].0 != template_pairs(info, ext)[k].0,
{
    let pairs = template_pairs(info, ext);
    reveal_strlit("%(id)s");
    reveal_strlit("%(title)s");
    reveal_strlit("%(ext)s");
    reveal_strlit("%(uploader)s");
    reveal_strlit("%(uploader_id)s");
    reveal_strlit("%(channel)s");
    reveal_strlit("%(channel_id)s");
    reveal_strlit("%(upload_date)s");
    reveal_strlit("%(description)s");
    reveal_strlit("%(duration)s");
    reveal_strlit("%(view_count)s");
    reveal_strlit("%(like_count)s");
    reveal_strlit("%(playlist_index)s");
    reveal_strlit("%(playlist)s");
    reveal_strlit("%(playlist_id)s");
    reveal_strlit("%(webpage_url)s");
    reveal_strlit("%(extractor)s");
    reveal_with_fuel(lacks_between, 20);
    assert forall|j: int| 0 <= j < 17 implies is_placeholder(#[trigger] pairs[j].0) by {
        if j == 0 {
            assert(is_placeholder("%(id)s"@));
        } else if j == 1 {
            assert(is_placeholder("%(title)s"@));
        } else if j == 2 {
            assert(is_placeholder("%(ext)s"@));
        } else if j == 3 {
            assert(is_placeholder("%(uploader)s"@));
        } else if j == 4 {
            assert(is_placeholder("%(uploader_id)s"@));
        } else if j == 5 {
            assert(is_placeholder("%(channel)s"@));
        } else if j == 6 {
            assert(is_placeholder("%(channel_id)s"@));
        } else if j == 7 {
            assert(is_placeholder("%(upload_date)s"@));
        } else if j == 8 {
            assert(is_placeholder("%(description)s"@));
        } else if j == 9 {
            assert(is_placeholder("%(duration)s"@));
        } else if j == 10 {
            assert(is_placeholder("%(view_count)s"@));
        } else if j == 11 {
            assert(is_placeholder("%(like_count)s"@));
        } else if j == 12 {
            assert(is_placeholder("%(playlist_index)s"@));
        } else if j == 13 {
            assert(is_placeholder("%(playlist)s"@));
        } else if j == 14 {
            assert(is_placeholder("%(playlist_id)s"@));
        } else if j == 15 {
            assert(is_placeholder("%(webpage_url)s"@));
        } else if j == 16 {
            assert(is_placeholder("%(extractor)s"@));
        }
    }
    if k == 1 {
            assert forall|j: int| 0 <= j < k implies #[trigger] pairs[j].0 != pairs[k].0 by {
                if j == 0 {
                    assert("%(id)s"@.len() != "%(title)s"@.len());
                }
            }
        } else if k == 2 {
            assert forall|j: int| 0 <= j < k implies #[trigger] pairs[j].0 != pairs[k].0 by {
                if j == 0 {
                    assert("%(id)s"@.len() != "%(ext)s"@.len());
                } else if j == 1 {
                    assert("%(title)s"@.len() != "%(ext)s"@.len());
                }
            }
        } else if k == 3 {
            assert forall|j: int| 0 <= j < k implies #[trigger] pairs[j].0 != pairs[k].0 by {
                if j == 0 {
                    assert("%(id)s"@.len() != "%(uploader)s"@.len());
                } else if j == 1 {
                    assert("%(title)s"@.len() != "%(uploader)s"@.len());
                } else if j == 2 {
                    assert("%(ext)s"@.len() != "%(uploader)s"@.len());
                }
            }
        } else if k == 4 {
            assert forall|j: int| 0 <= j < k implies #[trigger] pairs[j].0 != pairs[k].0 by {
                if j == 0 {
                    assert("%(id)s"@.len() != "%(uploader_id)s"@.len());
                } else if j == 1 {
                    assert("%(title)s"@.len() != "%(uploader_id)s"@.len());
                } else if j == 2 {
                    assert("%(ext)s"@.len() != "%(uploader_id)s"@.len());
                } else if j == 3 {
                    assert("%(uploader)s"@.len() != "%(uploader_id)s"@.len());
                }
            }
        } else if k == 5 {
            assert forall|j: int| 0 <= j < k implies #[trigger] pairs[j].0 != pairs[k].0 by {
                if j == 0 {
                    assert("%(id)s"@.len() != "%(channel)s"@.len());
                } else if j == 1 {
                    assert("%(title)s"@.len() != "%(channel)s"@.len());
                } else if j == 2 {
                    assert("%(ext)s"@.len() != "%(channel)s"@.len());
                } else if j == 3 {
                    assert("%(uploader)s"@.len() != "%(channel)s"@.len());
                } else if j == 4 {
                    assert("%(uploader_id)s"@.len() != "%(channel)s"@.len());
                }
            }
        } else if k == 6 {
            assert forall|j: int| 0 <= j < k implies #[trigger] pairs[j].0 != pairs[k].0 by {
                if j == 0 {
                    assert("%(id)s"@.len() != "%(channel_id)s"@.len());
                } else if j == 1 {
                    assert("%(title)s"@.len() != "%(channel_id)s"@.len());
                } else if j == 2 {
                    assert("%(ext)s"@.len() != "%(channel_id)s"@.len());
                } else if j == 3 {
                    assert("%(uploader)s"@.len() != "%(channel_id)s"@.len());
                } else if j == 4 {
                    assert("%(uploader_id)s"@.len() != "%(channel_id)s"@.len());
                } else if j == 5 {
                    assert("%(channel)s"@.len() != "%(channel_id)s"@.len());
                }
            }
        } else if k == 7 {
            assert forall|j: int| 0 <= j < k implies #[trigger] pairs[j].0 != pairs[k].0 by {
                if j == 0 {
                    assert("%(id)s"@.len() != "%(upload_date)s"@.len());
                } else if j == 1 {
                    assert("%(title)s"@.len() != "%(upload_date)s"@.len());
                } else if j == 2 {
                    assert("%(ext)s"@.len() != "%(upload_date)s"@.len());
                } else if j == 3 {
                    assert("%(uploader)s"@.len() != "%(upload_date)s"@.len());
                } else if j == 4 {
                    assert("%(uploader_id)s"@[8] != "%(upload_date)s"@[8]);
                } else if j == 5 {
                    assert("%(channel)s"@.len() != "%(upload_date)s"@.len());
                } else if j == 6 {
                    assert("%(channel_id)s"@.len() != "%(upload_date)s"@.len());
                }
            }
        } else if k == 8 {
            assert forall|j: int| 0 <= j < k implies #[trigger] pairs[j].0 != pairs[k].0 by {
                if j == 0 {
                    assert("%(id)s"@.len() != "%(description)s"@.len());
                } else if j == 1 {
                    assert("%(title)s"@.len() != "%(description)s"@.len());
                } else if j == 2 {
                    assert("%(ext)s"@.len() != "%(description)s"@.len());
                } else if j == 3 {
                    assert("%(uploader)s"@.len() != "%(description)s"@.len());
                } else if j == 4 {
                    assert("%(uploader_id)s"@[2] != "%(description)s"@[2]);
                } else if j == 5 {
                    assert("%(channel)s"@.len() != "%(description)s"@.len());
                } else if j == 6 {
                    assert("%(channel_id)s"@.len() != "%(description)s"@.len());
                } else if j == 7 {
                    assert("%(upload_date)s"@[2] != "%(description)s"@[2]);
                }
            }
        } else if k == 9 {
            assert forall|j: int| 0 <= j < k implies #[trigger] pairs[j].0 != pairs[k].0 by {
                if j == 0 {
                    assert("%(id)s"@.len() != "%(duration)s"@.len());
                } else if j == 1 {
                    assert("%(title)s"@.len() != "%(duration)s"@.len());
                } else if j == 2 {
                    assert("%(ext)s"@.len() != "%(duration)s"@.len());
                } else if j == 3 {
                    assert("%(uploader)s"@[2] != "%(duration)s"@[2]);
                } else if j == 4 {
                    assert("%(uploader_id)s"@.len() != "%(duration)s"@.len());
                } else if j == 5 {
                    assert("%(channel)s"@.len() != "%(duration)s"@.len());
                } else if j == 6 {
                    assert("%(channel_id)s"@.len() != "%(duration)s"@.len());
                } else if j == 7 {
                    assert("%(upload_date)s"@.len() != "%(duration)s"@.len());
                } else if j == 8 {
                    assert("%(description)s"@.len() != "%(duration)s"@.len());
                }
            }
        } else if k == 10 {
            assert forall|j: int| 0 <= j < k implies #[trigger] pairs[j].0 != pairs[k].0 by {
                if j == 0 {
                    assert("%(id)s"@.len() != "%(view_count)s"@.len());
                } else if j == 1 {
                    assert("%(title)s"@.len() != "%(view_count)s"@.len());
                } else if j == 2 {
                    assert("%(ext)s"@.len() != "%(view_count)s"@.len());
                } else if j == 3 {
                    assert("%(uploader)s"@.len() != "%(view_count)s"@.len());
                } else if j == 4 {
                    assert("%(uploader_id)s"@.len() != "%(view_count)s"@.len());
                } else if j == 5 {
                    assert("%(channel)s"@.len() != "%(view_count)s"@.len());
                } else if j == 6 {
                    assert("%(channel_id)s"@[2] != "%(view_count)s"@[2]);
                } else if j == 7 {
                    assert("%(upload_date)s"@.len() != "%(view_count)s"@.len());
                } else if j == 8 {
                    assert("%(description)s"@.len() != "%(view_count)s"@.len());
                } else if j == 9 {
                    assert("%(duration)s"@.len() != "%(view_count)s"@.len());
                }
            }
        } else if k == 11 {
            assert forall|j: int| 0 <= j < k implies #[trigger] pairs[j].0 != pairs[k].0 by {
                if j == 0 {
                    assert("%(id)s"@.len() != "%(like_count)s"@.len());
                } else if j == 1 {
                    assert("%(title)s"@.len() != "%(like_count)s"@.len());
                } else if j == 2 {
                    assert("%(ext)s"@.len() != "%(like_count)s"@.len());
                } else if j == 3 {
                    assert("%(uploader)s"@.len() != "%(like_count)s"@.len());
                } else if j == 4 {
                    assert("%(uploader_id)s"@.len() != "%(like_count)s"@.len());
                } else if j == 5 {
                    assert("%(channel)s"@.len() != "%(like_count)s"@.len());
                } else if j == 6 {
                    assert("%(channel_id)s"@[2] != "%(like_count)s"@[2]);
                } else if j == 7 {
                    assert("%(upload_date)s"@.len() != "%(like_count)s"@.len());
                } else if j == 8 {
                    assert("%(description)s"@.len() != "%(like_count)s"@.len());
                } else if j == 9 {
                    assert("%(duration)s"@.len() != "%(like_count)s"@.len());
                } else if j == 10 {
                    assert("%(view_count)s"@[2] != "%(like_count)s"@[2]);
                }
            }
        } else if k == 12 {
            assert forall|j: int| 0 <= j < k implies #[trigger] pairs[j].0 != pairs[k].0 by {
                if j == 0 {
                    assert("%(id)s"@.len() != "%(playlist_index)s"@.len());
                } else if j == 1 {
                    assert("%(title)s"@.len() != "%(playlist_index)s"@.len());
                } else if j == 2 {
                    assert("%(ext)s"@.len() != "%(playlist_index)s"@.len());
                } else if j == 3 {
                    assert("%(uploader)s"@.len() != "%(playlist_index)s"@.len());
                } else if j == 4 {
                    assert("%(uploader_id)s"@.len() != "%(playlist_index)s"@.len());
                } else if j == 5 {
                    assert("%(channel)s"@.len() != "%(playlist_index)s"@.len());
                } else if j == 6 {
                    assert("%(channel_id)s"@.len() != "%(playlist_index)s"@.len());
                } else if j == 7 {
                    assert("%(upload_date)s"@.len() != "%(playlist_index)s"@.len());
                } else if j == 8 {
                    assert("%(description)s"@.len() != "%(playlist_index)s"@.len());
                } else if j == 9 {
                    assert("%(duration)s"@.len() != "%(playlist_index)s"@.len());
                } else if j == 10 {
                    assert("%(view_count)s"@.len() != "%(playlist_index)s"@.len());
                } else if j == 11 {
                    assert("%(like_count)s"@.len() != "%(playlist_index)s"@.len());
                }
            }
        } else if k == 13 {
            assert forall|j: int| 0 <= j < k implies #[trigger] pairs[j].0 != pairs[k].0 by {
                if j == 0 {
                    assert("%(id)s"@.len() != "%(playlist)s"@.len());
                } else if j == 1 {
                    assert("%(title)s"@.len() != "%(playlist)s"@.len());
                } else if j == 2 {
                    assert("%(ext)s"@.len() != "%(playlist)s"@.len());
                } else if j == 3 {
                    assert("%(uploader)s"@[2] != "%(playlist)s"@[2]);
                } else if j == 4 {
                    assert("%(uploader_id)s"@.len() != "%(playlist)s"@.len());
                } else if j == 5 {
                    assert("%(channel)s"@.len() != "%(playlist)s"@.len());
                } else if j == 6 {
                    assert("%(channel_id)s"@.len() != "%(playlist)s"@.len());
                } else if j == 7 {
                    assert("%(upload_date)s"@.len() != "%(playlist)s"@.len());
                } else if j == 8 {
                    assert("%(description)s"@.len() != "%(playlist)s"@.len());
                } else if j == 9 {
                    assert("%(duration)s"@[2] != "%(playlist)s"@[2]);
                } else if j == 10 {
                    assert("%(view_count)s"@.len() != "%(playlist)s"@.len());
                } else if j == 11 {
                    assert("%(like_count)s"@.len() != "%(playlist)s"@.len());
                } else if j == 12 {
                    assert("%(playlist_index)s"@.len() != "%(playlist)s"@.len());
                }
            }
        } else if k == 14 {
            assert forall|j: int| 0 <= j < k implies #[trigger] pairs[j].0 != pairs[k].0 by {
                if j == 0 {
                    assert("%(id)s"@.len() != "%(playlist_id)s"@.len());
                } else if j == 1 {
                    assert("%(title)s"@.len() != "%(playlist_id)s"@.len());
                } else if j == 2 {
                    assert("%(ext)s"@.len() != "%(playlist_id)s"@.len());
                } else if j == 3 {
                    assert("%(uploader)s"@.len() != "%(playlist_id)s"@.len());
                } else if j == 4 {
                    assert("%(uploader_id)s"@[2] != "%(playlist_id)s"@[2]);
                } else if j == 5 {
                    assert("%(channel)s"@.len() != "%(playlist_id)s"@.len());
                } else if j == 6 {
                    assert("%(channel_id)s"@.len() != "%(playlist_id)s"@.len());
                } else if j == 7 {
                    assert("%(upload_date)s"@[2] != "%(playlist_id)s"@[2]);
                } else if j == 8 {
                    assert("%(description)s"@[2] != "%(playlist_id)s"@[2]);
                } else if j == 9 {
                    assert("%(duration)s"@.len() != "%(playlist_id)s"@.len());
                } else if j == 10 {
                    assert("%(view_count)s"@.len() != "%(playlist_id)s"@.len());
                } else if j == 11 {
                    assert("%(like_count)s"@.len() != "%(playlist_id)s"@.len());
                } else if j == 12 {
                    assert("%(playlist_index)s"@.len() != "%(playlist_id)s"@.len());
                } else if j == 13 {
                    assert("%(playlist)s"@.len() != "%(playlist_id)s"@.len());
                }
            }
        } else if k == 15 {
            assert forall|j: int| 0 <= j < k implies #[trigger] pairs[j].0 != pairs[k].0 by {
                if j == 0 {
                    assert("%(id)s"@.len() != "%(webpage_url)s"@.len());
                } else if j == 1 {
                    assert("%(title)s"@.len() != "%(webpage_url)s"@.len());
                } else if j == 2 {
                    assert("%(ext)s"@.len() != "%(webpage_url)s"@.len());
                } else if j == 3 {
                    assert("%(uploader)s"@.len() != "%(webpage_url)s"@.len());
                } else if j == 4 {
                    assert("%(uploader_id)s"@[2] != "%(webpage_url)s"@[2]);
                } else if j == 5 {
                    assert("%(channel)s"@.len() != "%(webpage_url)s"@.len());
                } else if j == 6 {
                    assert("%(channel_id)s"@.len() != "%(webpage_url)s"@.len());
                } else if j == 7 {
                    assert("%(upload_date)s"@[2] != "%(webpage_url)s"@[2]);
                } else if j == 8 {
                    assert("%(description)s"@[2] != "%(webpage_url)s"@[2]);
                } else if j == 9 {
                    assert("%(duration)s"@.len() != "%(webpage_url)s"@.len());
                } else if j == 10 {
                    assert("%(view_count)s"@.len() != "%(webpage_url)s"@.len());
                } else if j == 11 {
                    assert("%(like_count)s"@.len() != "%(webpage_url)s"@.len());
                } else if j == 12 {
                    assert("%(playlist_index)s"@.len() != "%(webpage_url)s"@.len());
                } else if j == 13 {
                    assert("%(playlist)s"@.len() != "%(webpage_url)s"@.len());
                } else if j == 14 {
                    assert("%(playlist_id)s"@[2] != "%(webpage_url)s"@[2]);
                }
            }
        } else if k == 16 {
            assert forall|j: int| 0 <= j < k implies #[trigger] pairs[j].0 != pairs[k].0 by {
                if j == 0 {
                    assert("%(id)s"@.len() != "%(extractor)s"@.len());
                } else if j == 1 {
                    assert("%(title)s"@.len() != "%(extractor)s"@.len());
                } else if j == 2 {
                    assert("%(ext)s"@.len() != "%(extractor)s"@.len());
                } else if j == 3 {
                    assert("%(uploader)s"@.len() != "%(extractor)s"@.len());
                } else if j == 4 {
                    assert("%(uploader_id)s"@.len() != "%(extractor)s"@.len());
                } else if j == 5 {
                    assert("%(channel)s"@.len() != "%(extractor)s"@.len());
                } else if j == 6 {
                    assert("%(channel_id)s"@.len() != "%(extractor)s"@.len());
                } else if j == 7 {
                    assert("%(upload_date)s"@.len() != "%(extractor)s"@.len());
                } else if j == 8 {
                    assert("%(description)s"@.len() != "%(extractor)s"@.len());
                } else if j == 9 {
                    assert("%(duration)s"@.len() != "%(extractor)s"@.len());
                } else if j == 10 {
                    assert("%(view_count)s"@.len() != "%(extractor)s"@.len());
                } else if j == 11 {
                    assert("%(like_count)s"@.len() != "%(extractor)s"@.len());
                } else if j == 12 {
                    assert("%(playlist_index)s"@.len() != "%(extractor)s"@.len());
                } else if j == 13 {
                    assert("%(playlist)s"@.len() != "%(extractor)s"@.len());
                } else if j == 14 {
                    assert("%(playlist_id)s"@.len() != "%(extractor)s"@.len());
                } else if j == 15 {
                    assert("%(webpage_url)s"@.len() != "%(extractor)s"@.len());
                }
            }
        }
}

/// Each placeholder stands for its own field: a template that is just
/// `%(f)s` expands to the value of field `f` of the video (to the file
/// extension for `%(ext)s`, empty for a field the video lacks, numbers in
/// decimal, the duration as a clock and the playlist index padded to three
/// digits), provided that value holds no `%`, which a later placeholder
/// could otherwise claim.
pub proof fn law_placeholders_stand_for_their_fields(info: VideoInfo, ext: Seq<char>)
    ensures
        no_percent(info.id@) ==> spec_expand_template("%(id)s"@, info, ext) == info.id@,
        no_percent(info.title@) ==> spec_expand_template("%(title)s"@, info, ext) == info.title@,
        no_percent(ext) ==> spec_expand_template("%(ext)s"@, info, ext) == ext,
        no_percent(or_empty(opt_view(info.uploader))) ==> spec_expand_template("%(uploader)s"@, info, ext) == or_empty(opt_view(info.uploader)),
        no_percent(or_empty(opt_view(info.uploader_id))) ==> spec_expand_template("%(uploader_id)s"@, info, ext) == or_empty(opt_view(info.uploader_id)),
        no_percent(or_empty(opt_view(info.channel))) ==> spec_expand_template("%(channel)s"@, info, ext) == or_empty(opt_view(info.channel)),
        no_percent(or_empty(opt_view(info.channel_id))) ==> spec_expand_template("%(channel_id)s"@, info, ext) == or_empty(opt_view(info.channel_id)),
        no_percent(or_empty(opt_view(info.upload_date))) ==> spec_expand_template("%(upload_date)s"@, info, ext) == or_empty(opt_view(info.upload_date)),
        no_percent(or_empty(opt_view(info.description))) ==> spec_expand_template("%(description)s"@, info, ext) == or_empty(opt_view(info.description)),
        no_percent((match info.duration {
            Some(d) => spec_format_duration(d as nat),
            None => Seq::empty(),
        })) ==> spec_expand_template("%(duration)s"@, info, ext) == (match info.duration {
            Some(d) => spec_format_duration(d as nat),
            None => Seq::empty(),
        }),
        no_percent(number_or_empty(info.view_count)) ==> spec_expand_template("%(view_count)s"@, info, ext) == number_or_empty(info.view_count),
        no_percent(number_or_empty(info.like_count)) ==> spec_expand_template("%(like_count)s"@, info, ext) == number_or_empty(info.like_count),
        no_percent((match info.playlist_index {
            Some(i) => pad3(i as nat),
            None => Seq::empty(),
        })) ==> spec_expand_template("%(playlist_index)s"@, info, ext) == (match info.playlist_index {
            Some(i) => pad3(i as nat),
            None => Seq::empty(),
        }),
        no_percent(or_empty(opt_view(info.playlist))) ==> spec_expand_template("%(playlist)s"@, info, ext) == or_empty(opt_view(info.playlist)),
        no_percent(or_empty(opt_view(info.playlist_id))) ==> spec_expand_template("%(playlist_id)s"@, info, ext) == or_empty(opt_view(info.playlist_id)),
        no_percent(info.webpage_url@) ==> spec_expand_template("%(webpage_url)s"@, info, ext) == info.webpage_url@,
        no_percent(info.extractor@) ==> spec_expand_template("%(extractor)s"@, info, ext) == info.extractor@,
{
    let pairs = template_pairs(info, ext);
    if no_percent(pairs[0].1) {
        lemma_template_keys(info, ext, 0);
        lemma_replace_each_placeholder(pairs, 0, 0);
    }
    if no_percent(pairs[1].1) {
        lemma_template_keys(info, ext, 1);
        lemma_replace_each_placeholder(pairs, 1, 0);
    }
    if no_percent(pairs[2].1) {
        lemma_template_keys(info, ext, 2);
        lemma_replace_each_placeholder(pairs, 2, 0);
    }
    if no_percent(pairs[3].1) {
        lemma_template_keys(info, ext, 3);
        lemma_replace_each_placeholder(pairs, 3, 0);
    }
    if no_percent(pairs[4].1) {
        lemma_template_keys(info, ext, 4);
        lemma_replace_each_placeholder(pairs, 4, 0);
    }
    if no_percent(pairs[5].1) {
        lemma_template_keys(info, ext, 5);
        lemma_replace_each_placeholder(pairs, 5, 0);
    }
    if no_percent(pairs[6].1) {
        lemma_template_keys(info, ext, 6);
        lemma_replace_each_placeholder(pairs, 6, 0);
    }
    if no_percent(pairs[7].1) {
        lemma_template_keys(info, ext, 7);
        lemma_replace_each_placeholder(pairs, 7, 0);
    }
    if no_percent(pairs[8].1) {
        lemma_template_keys(info, ext, 8);
        lemma_replace_each_placeholder(pairs, 8, 0);
    }
    if no_percent(pairs[9].1) {
        lemma_template_keys(info, ext, 9);
        lemma_replace_each_placeholder(pairs, 9, 0);
    }
    if no_percent(pairs[10].1) {
        lemma_template_keys(info, ext, 10);
        lemma_replace_each_placeholder(pairs, 10, 0);
    }
    if no_percent(pairs[11].1) {
        lemma_template_keys(info, ext, 11);
        lemma_replace_each_placeholder(pairs, 11, 0);
    }
    if no_percent(pairs[12].1) {
        lemma_template_keys(info, ext, 12);
        lemma_replace_each_placeholder(pairs, 12, 0);
    }
    if no_percent(pairs[13].1) {
        lemma_template_keys(info, ext, 13);
        lemma_replace_each_placeholder(pairs, 13, 0);
    }
    if no_percent(pairs[14].1) {
        lemma_template_keys(info, ext, 14);
        lemma_replace_each_placeholder(pairs, 14, 0);
    }
    if no_percent(pairs[15].1) {
        lemma_template_keys(info, ext, 15);
        lemma_replace_each_placeholder(pairs, 15, 0);
    }
    if no_percent(pairs[16].1) {
        lemma_template_keys(info, ext, 16);
        lemma_replace_each_placeholder(pairs, 16, 0);
    }
}

/// Text outside placeholders is kept: a template without a `%` comes out
/// as it went in.
pub proof fn law_plain_template_unchanged(template: Seq<char>, info: VideoInfo, ext: Seq<char>)
    requires
        forall|j: int| 0 <= j < template.len() ==> template[j] != '%',
    ensures
        spec_expand_template(template, info, ext) == template,
{
    reveal_strlit("%(id)s");
    reveal_strlit("%(title)s");
    reveal_strlit("%(ext)s");
    reveal_strlit("%(uploader)s");
    reveal_strlit("%(uploader_id)s");
    reveal_strlit("%(channel)s");
    reveal_strlit("%(channel_id)s");
    reveal_strlit("%(upload_date)s");
    reveal_strlit("%(description)s");
    reveal_strlit("%(duration)s");
    reveal_strlit("%(view_count)s");
    reveal_strlit("%(like_count)s");
    reveal_strlit("%(playlist_index)s");
    reveal_strlit("%(playlist)s");
    reveal_strlit("%(playlist_id)s");
    reveal_strlit("%(webpage_url)s");
    reveal_strlit("%(extractor)s");
    let pairs = template_pairs(info, ext);
    assert forall|k: int| 0 <= k < pairs.len() implies (#[trigger] pairs[k]).0.len() > 0
        && pairs[k].0[0] == '%' by {}
    lemma_replace_each_absent(template, pairs, 0);
}

fn opt_chars(o: &Option<String>) -> (r: Vec<char>)
    ensures
        r@ == or_empty(opt_view(*o)),
{
    match o {
        Some(s) => chars_of(s.as_str()),
        None => Vec::new(),
    }
}

fn number_chars(o: Option<u64>) -> (r: Vec<char>)
    ensures
        r@ == number_or_empty(o),
{
    match o {
        Some(n) => decimal_vec(n),
        None => Vec::new(),
    }
}

fn pad3_vec(n: u64) -> (r: Vec<char>)
    ensures
        r@ == pad3(n as nat),
{
    let d = decimal_vec(n);
    if d.len() >= 3 {
        d
    } else {
        let mut r: Vec<char> = Vec::new();
        r.push('0');
        if d.len() < 2 {
            r.push('0');
        }
        append_chars(&mut r, &d);
        proof {
            if d@.len() == 2 {
                assert(r@ =~= seq!['0'] + d@);
            } else {
                assert(r@ =~= seq!['0', '0'] + d@);
            }
        }
        r
    }
}

/// Formats a duration in whole seconds as `MM:SS` or `HH:MM:SS`.
pub fn format_duration(secs: u64) -> (r: String)
    ensures
        r@ == spec_format_duration(secs as nat),
{
    format_clock(secs)
}

pub open spec fn pairs_chars_view(v: Seq<(Vec<char>, Vec<char>)>) -> Seq<(Seq<char>, Seq<char>)> {
    v.map_values(|p: (Vec<char>, Vec<char>)| (p.0@, p.1@))
}

fn push_pair(v: &mut Vec<(Vec<char>, Vec<char>)>, key: &str, value: Vec<char>)
    ensures
        pairs_chars_view(final(v)@) == pairs_chars_view(old(v)@).push((key@, value@)),
{
    let ghost before = pairs_chars_view(v@);
    v.push((chars_of(key), value));
    assert(pairs_chars_view(v@) =~= before.push((key@, value@)));
}

fn template_pairs_exec(info: &VideoInfo, ext: &str) -> (r: Vec<(Vec<char>, Vec<char>)>)
    ensures
        pairs_chars_view(r@) == template_pairs(*info, ext@),
{
    let mut v: Vec<(Vec<char>, Vec<char>)> = Vec::new();
    push_pair(&mut v, "%(id)s", chars_of(info.id.as_str()));
    push_pair(&mut v, "%(title)s", chars_of(info.title.as_str()));
    push_pair(&mut v, "%(ext)s", chars_of(ext));
    push_pair(&mut v, "%(uploader)s", opt_chars(&info.uploader));
    push_pair(&mut v, "%(uploader_id)s", opt_chars(&info.uploader_id));
    push_pair(&mut v, "%(channel)s", opt_chars(&info.channel));
    push_pair(&mut v, "%(channel_id)s", opt_chars(&info.channel_id));
    push_pair(&mut v, "%(upload_date)s", opt_chars(&info.upload_date));
    push_pair(&mut v, "%(description)s", opt_chars(&info.description));
    let dur = match info.duration {
        Some(d) => {
            let s = format_duration(d);
            chars_of(s.as_str())
        },
        None => Vec::new(),
    };
    push_pair(&mut v, "%(duration)s", dur);
    push_pair(&mut v, "%(view_count)s", number_chars(info.view_count));
    push_pair(&mut v, "%(like_count)s", number_chars(info.like_count));
    let idx = match info.playlist_index {
        Some(i) => pad3_vec(i as u64),
        None => Vec::new(),
    };
    push_pair(&mut v, "%(playlist_index)s", idx);
    push_pair(&mut v, "%(playlist)s", opt_chars(&info.playlist));
    push_pair(&mut v, "%(playlist_id)s", opt_chars(&info.playlist_id));
    push_pair(&mut v, "%(webpage_url)s", chars_of(info.webpage_url.as_str()));
    push_pair(&mut v, "%(extractor)s", chars_of(info.extractor.as_str()));
    assert(pairs_chars_view(v@) =~= template_pairs(*info, ext@));
    v
}

proof fn lemma_placeholders_nonempty(info: VideoInfo, ext: Seq<char>)
    ensures
        forall|i: int|
            0 <= i < template_pairs(info, ext).len() ==> (#[trigger] template_pairs(info, ext)[i]).0.len()
                > 0,
{
    reveal_strlit("%(id)s");
    reveal_strlit("%(title)s");
    reveal_strlit("%(ext)s");
    reveal_strlit("%(uploader)s");
    reveal_strlit("%(uploader_id)s");
    reveal_strlit("%(channel)s");
    reveal_strlit("%(channel_id)s");
    reveal_strlit("%(upload_date)s");
    reveal_strlit("%(description)s");
    reveal_strlit("%(duration)s");
    reveal_strlit("%(view_count)s");
    reveal_strlit("%(like_count)s");
    reveal_strlit("%(playlist_index)s");
    reveal_strlit("%(playlist)s");
    reveal_strlit("%(playlist_id)s");
    reveal_strlit("%(webpage_url)s");
    reveal_strlit("%(extractor)s");
}

fn expand_chars(template: &str, info: &VideoInfo, ext: &str) -> (r: Vec<char>)
    ensures
        r@ == spec_expand_template(template@, *info, ext@),
{
    let pairs = template_pairs_exec(info, ext);
    let ghost ps = template_pairs(*info, ext@);
    proof {
        lemma_placeholders_nonempty(*info, ext@);
    }
    let mut cur = chars_of(template);
    let mut i: usize = 0;
    while i < pairs.len()
        invariant
            i <= pairs.len(),
            pairs_chars_view(pairs@) == ps,
            ps == template_pairs(*info, ext@),
            forall|j: int| 0 <= j < ps.len() ==> (#[trigger] ps[j]).0.len() > 0,
            replace_each(cur@, ps, i as int) == spec_expand_template(template@, *info, ext@),
        decreases pairs.len() - i,
    {
        assert(ps[i as int] == (pairs@[i as int].0@, pairs@[i as int].1@));
        cur = replace_vec(&cur, &pairs[i].0, &pairs[i].1);
        i = i + 1;
    }
    cur
}

/// Fills in the `%(field)s` placeholders of an output template.
pub fn expand_template(template: &str, info: &VideoInfo, ext: &str) -> (r: String)
    ensures
        r@ == spec_expand_template(template@, *info, ext@),
{
    let v = expand_chars(template, info, ext);
    string_from(&v)
}

// ───────────────────────── sanitizing ─────────────────────────

/// The characters that are kept as they are when file names are restricted.
pub open spec fn restrict_safe(c: char) -> bool {
    is_ascii_alnum(c) || c == '.' || c == '_' || c == '-' || c == '(' || c == ')' || c == '['
        || c == ']' || c == ' '
}

/// Characters that are not allowed in file names on some system.
pub open spec fn forbidden_in_names(c: char) -> bool {
    c == ':' || c == '*' || c == '?' || c == '"' || c == '<' || c == '>' || c == '|' || c == '\0'
}

/// What one character of a name becomes: path separators become `_`; so
/// does, when names are restricted, any character but ASCII letters, digits
/// and `._-()[] `, and otherwise any character forbidden on some system.
pub open spec fn sanitize_char(c: char, restrict: bool) -> char {
    if c == '/' || c == '\\' {
        '_'
    } else if restrict {
        if restrict_safe(c) {
            c
        } else {
            '_'
        }
    } else if forbidden_in_names(c) {
        '_'
    } else {
        c
    }
}

/// `s[i..]` without the underscores that follow an underscore, `prev` telling
/// whether `s[i - 1]` is one.
pub open spec fn collapse_from(s: Seq<char>, i: int, prev: bool) -> Seq<char>
    decreases s.len() - i,
{
    if i < 0 || i >= s.len() {
        Seq::empty()
    } else if s[i] == '_' && prev {
        collapse_from(s, i + 1, true)
    } else {
        seq![s[i]] + collapse_from(s, i + 1, s[i] == '_')
    }
}

/// `s` with every run of underscores made a single one.
pub open spec fn collapse_underscores(s: Seq<char>) -> Seq<char> {
    collapse_from(s, 0, false)
}

/// From index `i` (after `acc` bytes), the end of the longest prefix that
/// fits in `limit` bytes, with the bytes it takes.
pub open spec fn cut_at(s: Seq<char>, limit: int, i: int, acc: int) -> (int, int)
    decreases s.len() - i,
{
    if i < 0 || i >= s.len() || acc + utf8_width(s[i]) > limit {
        (i, acc)
    } else {
        cut_at(s, limit, i + 1, acc + utf8_width(s[i]))
    }
}

/// The name before it is cut to 200 bytes.
pub open spec fn sanitize_uncut(name: Seq<char>, restrict: bool) -> Seq<char> {
    trim_class(
        collapse_underscores(name.map_values(|c: char| sanitize_char(c, restrict))),
        CharClass::SpaceOrDot,
    )
}

/// Cutting the name to 200 bytes would split a character (the name is longer
/// than 200 bytes in UTF-8 and byte 200 falls inside a character).
pub open spec fn sanitize_splits_char(name: Seq<char>, restrict: bool) -> bool {
    let s = sanitize_uncut(name, restrict);
    let c = cut_at(s, 200, 0, 0);
    c.0 < s.len() && c.1 != 200
}

pub open spec fn or_video(s: Seq<char>) -> Seq<char> {
    if s.len() == 0 {
        "video"@
    } else {
        s
    }
}

/// A name made safe to use as a file name: separators and forbidden characters
/// become `_`, runs of `_` become one, spaces and dots go from both ends, a
/// name over 200 bytes is cut to 200 and loses what is not alphanumeric at its
/// end, and an empty name becomes `video`.
pub open spec fn spec_sanitize_filename(name: Seq<char>, restrict: bool) -> Seq<char> {
    let s = sanitize_uncut(name, restrict);
    let c = cut_at(s, 200, 0, 0);
    if c.0 < s.len() {
        or_video(trim_end_class(s.subrange(0, c.0), CharClass::NotAlphanumeric))
    } else {
        or_video(s)
    }
}

fn sanitize_char_exec(c: char, restrict: bool) -> (r: char)
    ensures
        r == sanitize_char(c, restrict),
{
    if c == '/' || c == '\\' {
        '_'
    } else if restrict {
        let safe = ('a' <= c && c <= 'z') || ('A' <= c && c <= 'Z') || ('0' <= c && c <= '9')
            || c == '.' || c == '_' || c == '-' || c == '(' || c == ')' || c == '[' || c == ']'
            || c == ' ';
        if safe {
            c
        } else {
            '_'
        }
    } else if c == ':' || c == '*' || c == '?' || c == '"' || c == '<' || c == '>' || c == '|'
        || c == '\0' {
        '_'
    } else {
        c
    }
}

fn collapse_vec(v: &Vec<char>) -> (r: Vec<char>)
    ensures
        r@ == collapse_underscores(v@),
{
    let mut out: Vec<char> = Vec::new();
    let mut prev = false;
    let mut i: usize = 0;
    while i < v.len()
        invariant
            i <= v.len(),
            out@ + collapse_from(v@, i as int, prev) == collapse_underscores(v@),
        decreases v.len() - i,
    {
        let c = v[i];
        let ghost before = out@;
        if c == '_' && prev {
        } else {
            out.push(c);
            assert(out@ + collapse_from(v@, i + 1, c == '_') =~= before + collapse_from(
                v@,
                i as int,
                prev,
            ));
        }
        prev = c == '_';
        i = i + 1;
    }
    assert(out@ + Seq::<char>::empty() =~= out@);
    out
}

fn cut_200(v: &Vec<char>) -> (r: (usize, usize))
    ensures
        r.0 as int == cut_at(v@, 200, 0, 0).0,
        r.1 as int == cut_at(v@, 200, 0, 0).1,
        r.0 <= v.len(),
{
    let mut i: usize = 0;
    let mut acc: usize = 0;
    while i < v.len() && acc + utf8_width_of(v[i]) <= 200
        invariant
            i <= v.len(),
            acc <= 200,
            cut_at(v@, 200, 0, 0) == cut_at(v@, 200, i as int, acc as int),
        decreases v.len() - i,
    {
        acc = acc + utf8_width_of(v[i]);
        i = i + 1;
    }
    (i, acc)
}

fn sanitize_uncut_vec(name: &str, restrict: bool) -> (r: Vec<char>)
    ensures
        r@ == sanitize_uncut(name@, restrict),
{
    let v = chars_of(name);
    let mut mapped: Vec<char> = Vec::new();
    let mut i: usize = 0;
    while i < v.len()
        invariant
            i <= v.len(),
            mapped@ == v@.subrange(0, i as int).map_values(|c: char| sanitize_char(c, restrict)),
        decreases v.len() - i,
    {
        mapped.push(sanitize_char_exec(v[i], restrict));
        i = i + 1;
        assert(mapped@ =~= v@.subrange(0, i as int).map_values(
            |c: char| sanitize_char(c, restrict),
        ));
    }
    assert(v@.subrange(0, v@.len() as int) =~= v@);
    let collapsed = collapse_vec(&mapped);
    trim_class_vec(&collapsed, CharClass::SpaceOrDot)
}

/// Whether sanitizing the name would cut through a character.
pub fn sanitize_would_split(name: &str, restrict: bool) -> (b: bool)
    ensures
        b == sanitize_splits_char(name@, restrict),
{
    let s = sanitize_uncut_vec(name, restrict);
    let (k, bytes) = cut_200(&s);
    k < s.len() && bytes != 200
}

/// Makes a name safe to use as a file name.
pub fn sanitize_filename(name: &str, restrict: bool) -> (r: String)
    requires
        !sanitize_splits_char(name@, restrict),
    ensures
        r@ == spec_sanitize_filename(name@, restrict),
{
    let s = sanitize_uncut_vec(name, restrict);
    let (k, _bytes) = cut_200(&s);
    let t = if k < s.len() {
        let cut = sub_vec(&s, 0, k);
        trim_end_class_vec(&cut, CharClass::NotAlphanumeric)
    } else {
        s
    };
    if t.len() == 0 {
        String::from_str("video")
    } else {
        string_from(&t)
    }
}

// ───────────────────────── output paths ─────────────────────────

/// `base` joined with a relative `name` as `PathBuf::push` joins them: a `/`
/// goes between unless `base` is empty or already ends in one.
pub open spec fn join_path(base: Seq<char>, name: Seq<char>) -> Seq<char> {
    if base.len() > 0 && base.last() != '/' {
        base + "/"@ + name
    } else {
        base + name
    }
}

/// The output path: the template expanded, and then, when the path has a
/// (non-empty) parent, the file name part sanitized and put back under it;
/// else the whole expansion sanitized.
pub open spec fn spec_build_output_path(
    template: Seq<char>,
    info: VideoInfo,
    ext: Seq<char>,
    restrict: bool,
) -> Seq<char> {
    let expanded = spec_expand_template(template, info, ext);
    match path_parent(expanded) {
        Some(parent) => if parent.len() > 0 {
            join_path(
                parent,
                spec_sanitize_filename(or_empty(path_file_name(expanded)), restrict),
            )
        } else {
            spec_sanitize_filename(expanded, restrict)
        },
        None => spec_sanitize_filename(expanded, restrict),
    }
}

/// Building the output path would cut through a character of the file name.
pub open spec fn output_path_splits_char(
    template: Seq<char>,
    info: VideoInfo,
    ext: Seq<char>,
    restrict: bool,
) -> bool {
    let expanded = spec_expand_template(template, info, ext);
    match path_parent(expanded) {
        Some(parent) => if parent.len() > 0 {
            sanitize_splits_char(or_empty(path_file_name(expanded)), restrict)
        } else {
            sanitize_splits_char(expanded, restrict)
        },
        None => sanitize_splits_char(expanded, restrict),
    }
}

/// The parts the output path is made of: the parent directory (if the path
/// has a non-empty one) and the name to sanitize.
fn path_parts(template: &str, info: &VideoInfo, ext: &str) -> (r: (Option<String>, String))
    ensures
        ({
            let expanded = spec_expand_template(template@, *info, ext@);
            match r.0 {
                Some(p) => path_parent(expanded) == Some(p@) && p@.len() > 0 && r.1@ == or_empty(
                    path_file_name(expanded),
                ),
                None => !(path_parent(expanded) matches Some(q) && q.len() > 0) && r.1@
                    == expanded,
            }
        }),
{
    let expanded = expand_template(template, info, ext);
    match parent_of(expanded.as_str()) {
        Some(parent) => {
            if !parent.as_str().is_empty() {
                let name = match file_name_of(expanded.as_str()) {
                    Some(n) => n,
                    None => String::new(),
                };
                return (Some(parent), name);
            }
            proof {
                assert(parent@.len() == 0);
            }
            (None, expanded)
        },
        None => (None, expanded),
    }
}

/// Builds the output path for a video from a template.
pub fn build_output_path(template: &str, info: &VideoInfo, ext: &str, restrict: bool) -> (r: String)
    requires
        !output_path_splits_char(template@, *info, ext@, restrict),
    ensures
        r@ == spec_build_output_path(template@, *info, ext@, restrict),
{
    let (parent, name) = path_parts(template, info, ext);
    let clean = sanitize_filename(name.as_str(), restrict);
    match parent {
        Some(p) => {
            let mut v = chars_of(p.as_str());
            let n = v.len();
            if n > 0 && v[n - 1] != '/' {
                v.push('/');
            }
            let c = chars_of(clean.as_str());
            append_chars(&mut v, &c);
            proof {
                if n > 0 && p@.last() != '/' {
                    assert(v@ =~= p@ + "/"@ + clean@) by {
                        reveal_strlit("/");
                    }
                } else {
                    assert(v@ =~= p@ + clean@);
                }
            }
            string_from(&v)
        },
        None => clean,
    }
}

/// Builds the output path, or `None` when sanitizing would cut through a
/// character of the file name.
pub fn try_build_output_path(template: &str, info: &VideoInfo, ext: &str, restrict: bool) -> (r:
    Option<String>)
    ensures
        match r {
            Some(p) => !output_path_splits_char(template@, *info, ext@, restrict) && p@
                == spec_build_output_path(template@, *info, ext@, restrict),
            None => output_path_splits_char(template@, *info, ext@, restrict),
        },
{
    let (_parent, name) = path_parts(template, info, ext);
    if sanitize_would_split(name.as_str(), restrict) {
        None
    } else {
        Some(build_output_path(template, info, ext, restrict))
    }
}


// ───────────────────────── what sanitizing guarantees ─────────────────────────

/// A character that a sanitized name may hold: no path separator, and no
/// character some system forbids (restricted: only ASCII letters, digits
/// and `._-()[] `).
pub open spec fn name_char_ok(c: char, restrict: bool) -> bool {
    c != '/' && c != '\\' && if restrict {
        restrict_safe(c)
    } else {
        !forbidden_in_names(c)
    }
}

pub open spec fn all_name_chars(s: Seq<char>, restrict: bool) -> bool {
    forall|i: int| 0 <= i < s.len() ==> name_char_ok(#[trigger] s[i], restrict)
}

/// No two underscores in a row.
pub open spec fn no_double_underscore(s: Seq<char>) -> bool {
    forall|i: int| 0 <= i < s.len() - 1 ==> !(#[trigger] s[i] == '_' && s[i + 1] == '_')
}

proof fn lemma_collapse(s: Seq<char>, i: int, prev: bool, restrict: bool)
    requires
        0 <= i <= s.len(),
        forall|j: int| i <= j < s.len() ==> name_char_ok(#[trigger] s[j], restrict),
    ensures
        all_name_chars(collapse_from(s, i, prev), restrict),
        no_double_underscore(collapse_from(s, i, prev)),
        prev && collapse_from(s, i, prev).len() > 0 ==> collapse_from(s, i, prev)[0] != '_',
    decreases s.len() - i,
{
    if i < s.len() {
        if s[i] == '_' && prev {
            lemma_collapse(s, i + 1, true, restrict);
        } else {
            lemma_collapse(s, i + 1, s[i] == '_', restrict);
            let rest = collapse_from(s, i + 1, s[i] == '_');
            let r = collapse_from(s, i, prev);
            assert(r =~= seq![s[i]] + rest);
            assert forall|j: int| 0 <= j < r.len() implies name_char_ok(#[trigger] r[j], restrict) by {
                if j > 0 {
                    assert(r[j] == rest[j - 1]);
                }
            }
            assert forall|j: int| 0 <= j < r.len() - 1 implies !(#[trigger] r[j] == '_' && r[j + 1] == '_') by {
                if j > 0 {
                    assert(r[j] == rest[j - 1] && r[j + 1] == rest[j]);
                } else {
                    assert(r[1] == rest[0]);
                }
            }
        }
    }
}

proof fn lemma_subrange_keeps(s: Seq<char>, a: int, b: int, restrict: bool)
    requires
        0 <= a <= b <= s.len(),
        all_name_chars(s, restrict),
        no_double_underscore(s),
    ensures
        all_name_chars(s.subrange(a, b), restrict),
        no_double_underscore(s.subrange(a, b)),
{
    let t = s.subrange(a, b);
    assert forall|j: int| 0 <= j < t.len() implies name_char_ok(#[trigger] t[j], restrict) by {
        assert(t[j] == s[a + j]);
    }
    assert forall|j: int| 0 <= j < t.len() - 1 implies !(#[trigger] t[j] == '_' && t[j + 1] == '_') by {
        assert(t[j] == s[a + j] && t[j + 1] == s[a + j + 1]);
    }
}

proof fn lemma_cut_at(s: Seq<char>, limit: int, i: int, acc: int)
    requires
        0 <= i <= s.len(),
        acc == utf8_len(s.subrange(0, i)),
        acc <= limit,
    ensures
        i <= cut_at(s, limit, i, acc).0 <= s.len(),
        cut_at(s, limit, i, acc).1 == utf8_len(s.subrange(0, cut_at(s, limit, i, acc).0)),
        cut_at(s, limit, i, acc).1 <= limit,
    decreases s.len() - i,
{
    if i < s.len() && acc + utf8_width(s[i]) <= limit {
        assert(s.subrange(0, i + 1).drop_last() =~= s.subrange(0, i));
        lemma_cut_at(s, limit, i + 1, acc + utf8_width(s[i]));
    }
}

proof fn lemma_utf8_len_prefix(s: Seq<char>, j: int)
    requires
        0 <= j <= s.len(),
    ensures
        utf8_len(s.subrange(0, j)) <= utf8_len(s),
    decreases s.len() - j,
{
    if j < s.len() {
        lemma_utf8_len_prefix(s, j + 1);
        assert(s.subrange(0, j + 1).drop_last() =~= s.subrange(0, j));
        assert(utf8_width(s[j]) >= 1);
    } else {
        assert(s.subrange(0, j) =~= s);
    }
}

pub open spec fn space_or_dot(c: char) -> bool {
    c == ' ' || c == '.'
}

/// Neither the first nor the last character is a space or a dot.
pub open spec fn ends_clean(s: Seq<char>) -> bool {
    s.len() > 0 ==> !space_or_dot(s[0]) && !space_or_dot(s[s.len() - 1])
}

proof fn lemma_collapse_unchanged(s: Seq<char>, i: int)
    requires
        no_double_underscore(s),
        0 <= i <= s.len(),
    ensures
        collapse_from(s, i, i > 0 && s[i - 1] == '_') == s.subrange(i, s.len() as int),
    decreases s.len() - i,
{
    if i < s.len() {
        if i > 0 {
            assert(!(s[i - 1] == '_' && s[i] == '_'));
        }
        lemma_collapse_unchanged(s, i + 1);
        assert(seq![s[i]] + s.subrange(i + 1, s.len() as int) =~= s.subrange(i, s.len() as int));
    } else {
        assert(s.subrange(i, s.len() as int) =~= Seq::<char>::empty());
    }
}

proof fn lemma_cut_whole(s: Seq<char>, limit: int, i: int, acc: int)
    requires
        0 <= i <= s.len(),
        acc == utf8_len(s.subrange(0, i)),
        utf8_len(s) <= limit,
    ensures
        cut_at(s, limit, i, acc).0 == s.len(),
    decreases s.len() - i,
{
    if i < s.len() {
        lemma_utf8_len_prefix(s, i + 1);
        assert(s.subrange(0, i + 1).drop_last() =~= s.subrange(0, i));
        lemma_cut_whole(s, limit, i + 1, acc + utf8_width(s[i]));
    }
}

/// A name that is already safe comes out of sanitizing as it went in.
pub proof fn law_safe_names_unchanged(y: Seq<char>, restrict: bool)
    requires
        y.len() > 0,
        utf8_len(y) <= 200,
        all_name_chars(y, restrict),
        no_double_underscore(y),
        ends_clean(y),
    ensures
        spec_sanitize_filename(y, restrict) == y,
        !sanitize_splits_char(y, restrict),
{
    let mapped = y.map_values(|c: char| sanitize_char(c, restrict));
    assert forall|j: int| 0 <= j < y.len() implies mapped[j] == y[j] by {
        assert(name_char_ok(y[j], restrict));
    }
    assert(mapped =~= y);
    lemma_collapse_unchanged(y, 0);
    assert(y.subrange(0, y.len() as int) =~= y);
    let col = collapse_underscores(mapped);
    assert(col == y);
    let k = CharClass::SpaceOrDot;
    assert(left_end(y, k, 0) == 0);
    assert(right_end(y, k, 0, y.len() as int) == y.len());
    let s = sanitize_uncut(y, restrict);
    assert(s == y);
    assert(y.subrange(0, 0) =~= Seq::<char>::empty());
    lemma_cut_whole(y, 200, 0, 0);
}

/// Sanitizing a sanitized name changes nothing, and a sanitized name can
/// always be handed to `sanitize_filename` again (its cut never splits a
/// character), whatever name it came from.
pub proof fn law_sanitize_idempotent(name: Seq<char>, restrict: bool)
    ensures
        !sanitize_splits_char(spec_sanitize_filename(name, restrict), restrict),
        spec_sanitize_filename(spec_sanitize_filename(name, restrict), restrict)
            == spec_sanitize_filename(name, restrict),
{
    law_sanitized_names_are_safe(name, restrict);
    law_safe_names_unchanged(spec_sanitize_filename(name, restrict), restrict);
}

/// What `sanitize_filename` promises of every name: the result is never
/// empty, is at most 200 bytes of UTF-8, has no path separator, no
/// character forbidden in file names (only safe ASCII when restricted),
/// no two underscores in a row, and neither starts nor ends with a space or
/// a dot.
pub proof fn law_sanitized_names_are_safe(name: Seq<char>, restrict: bool)
    ensures
        spec_sanitize_filename(name, restrict).len() > 0,
        utf8_len(spec_sanitize_filename(name, restrict)) <= 200,
        all_name_chars(spec_sanitize_filename(name, restrict), restrict),
        no_double_underscore(spec_sanitize_filename(name, restrict)),
        ends_clean(spec_sanitize_filename(name, restrict)),
{
    let mapped = name.map_values(|c: char| sanitize_char(c, restrict));
    assert forall|j: int| 0 <= j < mapped.len() implies name_char_ok(#[trigger] mapped[j], restrict) by {
        let c = name[j];
        assert(mapped[j] == sanitize_char(c, restrict));
    }
    lemma_collapse(mapped, 0, false, restrict);
    let col = collapse_underscores(mapped);
    let a = left_end(col, CharClass::SpaceOrDot, 0);
    lemma_left_end_bounds(col, CharClass::SpaceOrDot, 0);
    lemma_right_end_bounds(col, CharClass::SpaceOrDot, a, col.len() as int);
    let b = right_end(col, CharClass::SpaceOrDot, a, col.len() as int);
    lemma_subrange_keeps(col, a, b, restrict);
    let s = sanitize_uncut(name, restrict);
    assert(s == col.subrange(a, b));
    if a < b {
        assert(s[0] == col[a] && s[s.len() - 1] == col[b - 1]);
        assert(!space_or_dot(s[0]) && !space_or_dot(s[s.len() - 1]));
    }
    assert(s.subrange(0, 0) =~= Seq::<char>::empty());
    lemma_cut_at(s, 200, 0, 0);
    let c = cut_at(s, 200, 0, 0);
    let video = "video"@;
    assert(video =~= seq!['v', 'i', 'd', 'e', 'o']) by {
        reveal_strlit("video");
    }
    assert(all_name_chars(video, restrict));
    assert(no_double_underscore(video));
    assert(utf8_len(video) == 5) by {
        reveal_with_fuel(utf8_len, 6);
        assert(video.drop_last() =~= seq!['v', 'i', 'd', 'e']);
        assert(video.drop_last().drop_last() =~= seq!['v', 'i', 'd']);
        assert(video.drop_last().drop_last().drop_last() =~= seq!['v', 'i']);
        assert(video.drop_last().drop_last().drop_last().drop_last() =~= seq!['v']);
        assert(seq!['v'].drop_last() =~= Seq::<char>::empty());
    }
    if c.0 < s.len() {
        let p = s.subrange(0, c.0);
        lemma_subrange_keeps(s, 0, c.0, restrict);
        lemma_right_end_bounds(p, CharClass::NotAlphanumeric, 0, p.len() as int);
        let e = right_end(p, CharClass::NotAlphanumeric, 0, p.len() as int);
        lemma_subrange_keeps(p, 0, e, restrict);
        lemma_utf8_len_prefix(p, e);
        assert(p.subrange(0, e) == trim_end_class(p, CharClass::NotAlphanumeric));
        if e > 0 {
            let t = p.subrange(0, e);
            assert(t[0] == s[0] && t[e - 1] == p[e - 1]);
            assert(!space_or_dot(t[e - 1]));
        }
    } else {
        assert(s.subrange(0, c.0) =~= s);
    }
}

/// A name a file may safely be given (see [`law_sanitized_names_are_safe`]).
pub open spec fn safe_name(s: Seq<char>, restrict: bool) -> bool {
    s.len() > 0 && utf8_len(s) <= 200 && all_name_chars(s, restrict) && no_double_underscore(s)
}

/// Whatever the template and the video, the output path ends in a safe file
/// name: the directory part, if any, is kept, and what follows is sanitized.
pub proof fn law_output_path_ends_in_safe_name(
    template: Seq<char>,
    info: VideoInfo,
    ext: Seq<char>,
    restrict: bool,
)
    ensures
        ({
            let r = spec_build_output_path(template, info, ext, restrict);
            exists|k: int| 0 <= k < r.len() && #[trigger] safe_name(r.subrange(k, r.len() as int), restrict)
        }),
{
    let expanded = spec_expand_template(template, info, ext);
    let r = spec_build_output_path(template, info, ext, restrict);
    let name = match path_parent(expanded) {
        Some(parent) => if parent.len() > 0 {
            spec_sanitize_filename(or_empty(path_file_name(expanded)), restrict)
        } else {
            spec_sanitize_filename(expanded, restrict)
        },
        None => spec_sanitize_filename(expanded, restrict),
    };
    match path_parent(expanded) {
        Some(parent) => if parent.len() > 0 {
            law_sanitized_names_are_safe(or_empty(path_file_name(expanded)), restrict);
        } else {
            law_sanitized_names_are_safe(expanded, restrict);
        },
        None => {
            law_sanitized_names_are_safe(expanded, restrict);
        },
    }
    let k = r.len() - name.len();
    assert(r.subrange(k, r.len() as int) =~= name);
    assert(safe_name(r.subrange(k, r.len() as int), restrict));
}

} // verus!
