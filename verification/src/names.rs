use vstd::prelude::*;
use vstd::string::*;

use crate::order::{lemma_lex_transitive, lemma_lex_trichotomy, lex_lt, str_lt};
use crate::text::{find_char, find_char_in};

verus! {

/// Whether a file name matches `*.jpg`.
pub open spec fn is_jpg(f: Seq<char>) -> bool {
    f.len() >= 4 && f.subrange(f.len() - 4, f.len() as int) == ".jpg"@
}

/// An underscore is displayed as a space; every other character stands.
pub open spec fn repl_char(c: char) -> char {
    if c == '_' {
        ' '
    } else {
        c
    }
}

/// Underscores replaced by spaces.
pub open spec fn display_chars(s: Seq<char>) -> Seq<char> {
    s.map_values(|c: char| repl_char(c))
}

/// The display name of an asset file: the extension removed, underscores
/// replaced by spaces.
pub open spec fn display_of(f: Seq<char>) -> Seq<char> {
    display_chars(f.take(f.len() - 4))
}

/// The first space-delimited token: everything before the first space, or the
/// whole name when it holds none.
pub open spec fn first_token(s: Seq<char>) -> Seq<char> {
    match find_char(s, ' ') {
        None => s,
        Some(k) => s.take(k),
    }
}

/// The entries one asset file contributes, for a `*.jpg` file: its display
/// name, and that name's first token when the token is nonempty; nothing for
/// any other file. An empty token is never an entry, though an empty display
/// name is one.
pub open spec fn entries_of(f: Seq<char>) -> Set<Seq<char>> {
    if is_jpg(f) {
        if first_token(display_of(f)).len() > 0 {
            set![display_of(f), first_token(display_of(f))]
        } else {
            set![display_of(f)]
        }
    } else {
        Set::empty()
    }
}

/// All entries a directory of asset files contributes.
pub open spec fn derived_names(fs: Seq<Seq<char>>) -> Set<Seq<char>>
    decreases fs.len(),
{
    if fs.len() == 0 {
        Set::empty()
    } else {
        entries_of(fs[0]) + derived_names(fs.skip(1))
    }
}

/// The views of a sequence of strings.
pub open spec fn str_views(s: Seq<String>) -> Seq<Seq<char>> {
    s.map_values(|x: String| x@)
}

/// Strictly ascending in lexicographic order, hence free of duplicates.
pub open spec fn strict_sorted(s: Seq<Seq<char>>) -> bool {
    forall|i: int, j: int| 0 <= i < j < s.len() ==> lex_lt(s[i], s[j])
}

proof fn lemma_derived_names_push(fs: Seq<Seq<char>>, x: Seq<char>)
    ensures
        derived_names(fs.push(x)) == derived_names(fs) + entries_of(x),
    decreases fs.len(),
{
    if fs.len() == 0 {
        assert(fs.push(x)[0] == x);
        assert(fs.push(x).skip(1) =~= Seq::<Seq<char>>::empty());
        assert(derived_names(Seq::<Seq<char>>::empty()) == Set::<Seq<char>>::empty());
        assert(derived_names(fs.push(x)) == entries_of(x) + Set::<Seq<char>>::empty());
        assert(derived_names(fs.push(x)) =~= derived_names(fs) + entries_of(x));
    } else {
        assert(fs.push(x)[0] == fs[0]);
        assert(fs.push(x).skip(1) =~= fs.skip(1).push(x));
        lemma_derived_names_push(fs.skip(1), x);
        assert(derived_names(fs.push(x)) == entries_of(fs[0]) + derived_names(
            fs.skip(1).push(x),
        ));
        assert(derived_names(fs.push(x)) =~= derived_names(fs) + entries_of(x));
    }
}

/// Whether the file name matches `*.jpg`.
pub fn ends_with_jpg(f: &str) -> (r: bool)
    ensures
        r == is_jpg(f@),
{
    proof {
        reveal_strlit(".jpg");
    }
    let len = f.unicode_len();
    if len < 4 {
        return false;
    }
    let mut i: usize = 0;
    while i < 4
        invariant
            i <= 4,
            len == f@.len(),
            4 <= len,
            forall|k: int| 0 <= k < i ==> f@[len - 4 + k] == ".jpg"@[k],
        decreases 4 - i,
    {
        proof {
            reveal_strlit(".jpg");
        }
        let ext: &str = ".jpg";
        if f.get_char(len - 4 + i) != ext.get_char(i) {
            proof {
                assert(f@.subrange(len - 4, len as int)[i as int] != ".jpg"@[i as int]);
            }
            return false;
        }
        i = i + 1;
    }
    proof {
        assert(f@.subrange(len - 4, len as int) =~= ".jpg"@);
    }
    true
}

/// The display name of an asset file: the extension removed, underscores
/// replaced by spaces.
pub fn display_name(f: &str) -> (r: String)
    requires
        f@.len() >= 4,
    ensures
        r@ == display_of(f@),
{
    let len = f.unicode_len();
    let stop = len - 4;
    let mut r = String::new();
    let mut i: usize = 0;
    while i < stop
        invariant
            i <= stop,
            stop == len - 4,
            len == f@.len(),
            4 <= len,
            r@ == display_chars(f@.take(i as int)),
        decreases stop - i,
    {
        let c = f.get_char(i);
        if c == '_' {
            proof {
                reveal_strlit(" ");
            }
            r.append(" ");
        } else {
            let piece = f.substring_char(i, i + 1);
            r.append(piece);
        }
        proof {
            assert(r@ =~= display_chars(f@.take(i + 1)));
        }
        i = i + 1;
    }
    proof {
        assert(f@.take(stop as int) == f@.take(f@.len() - 4));
    }
    r
}

/// The first space-delimited token of a display name.
pub fn token_of(s: &str) -> (r: String)
    ensures
        r@ == first_token(s@),
{
    match find_char_in(s, ' ') {
        None => s.to_owned(),
        Some(k) => {
            let t = s.substring_char(0, k);
            proof {
                assert(t@ =~= s@.take(k as int));
            }
            t.to_owned()
        },
    }
}

/// Inserts a name into a sorted, duplicate-free list, keeping it so.
fn insert_unique(v: &mut Vec<String>, s: String)
    requires
        strict_sorted(str_views(old(v)@)),
    ensures
        strict_sorted(str_views(final(v)@)),
        str_views(final(v)@).to_set() == str_views(old(v)@).to_set().insert(s@),
{
    let n = v.len();
    let mut j: usize = 0;
    while j < n && str_lt(&v[j], &s)
        invariant
            j <= n,
            n == v@.len(),
            v@ == old(v)@,
            forall|k: int| 0 <= k < j ==> lex_lt(#[trigger] v@[k]@, s@),
        decreases n - j,
    {
        j = j + 1;
    }
    let ghost pre = str_views(v@);
    if j < n && v[j].eq(&s) {
        proof {
            assert(pre[j as int] == s@);
            assert(pre.to_set().contains(s@));
            assert(pre.to_set() =~= pre.to_set().insert(s@));
        }
        return ;
    }
    proof {
        if j < n {
            assert(!lex_lt(pre[j as int], s@));
            assert(pre[j as int] != s@);
            lemma_lex_trichotomy(pre[j as int], s@);
            assert(lex_lt(s@, pre[j as int]));
        }
        assert forall|k: int| j <= k < n implies lex_lt(s@, #[trigger] pre[k]) by {
            if k > j {
                assert(lex_lt(pre[j as int], pre[k]));
                lemma_lex_transitive(s@, pre[j as int], pre[k]);
            }
        }
    }
    v.insert(j, s);
    proof {
        let post = str_views(v@);
        assert(post =~= pre.insert(j as int, s@));
        assert forall|a: int, b: int| 0 <= a < b < post.len() implies lex_lt(post[a], post[b]) by {
            if a < j && b < j {
            } else if a < j && b == j {
                assert(post[a] == pre[a]);
            } else if a < j && b > j {
                assert(post[a] == pre[a] && post[b] == pre[b - 1]);
            } else if a == j {
                assert(post[b] == pre[b - 1]);
            } else {
                assert(post[a] == pre[a - 1] && post[b] == pre[b - 1]);
            }
        }
        assert forall|x: Seq<char>|
            post.to_set().contains(x) == pre.to_set().insert(s@).contains(x) by {
            if post.to_set().contains(x) {
                let idx = choose|idx: int| 0 <= idx < post.len() && post[idx] == x;
                if idx < j {
                    assert(pre[idx] == x);
                } else if idx == j {
                } else {
                    assert(pre[idx - 1] == x);
                }
            }
            if pre.to_set().contains(x) {
                let idx = choose|idx: int| 0 <= idx < pre.len() && pre[idx] == x;
                if idx < j {
                    assert(post[idx] == x);
                } else {
                    assert(post[idx + 1] == x);
                }
            }
            if x == s@ {
                assert(post[j as int] == x);
            }
        }
        assert(post.to_set() =~= pre.to_set().insert(s@));
    }
}

/// Builds the asset name list: every `*.jpg` file's display name and that
/// name's first token, deduplicated and sorted lexicographically. An empty
/// directory yields an empty list.
pub fn build_name_list(files: &Vec<String>) -> (r: Vec<String>)
    ensures
        strict_sorted(str_views(r@)),
        str_views(r@).to_set() == derived_names(str_views(files@)),
{
    let mut r: Vec<String> = Vec::new();
    let n = files.len();
    let mut i: usize = 0;
    proof {
        assert(str_views(r@) =~= Seq::<Seq<char>>::empty());
        assert(str_views(files@).take(0) =~= Seq::<Seq<char>>::empty());
        assert(str_views(r@).to_set() =~= derived_names(str_views(files@).take(0)));
    }
    while i < n
        invariant
            i <= n,
            n == files@.len(),
            strict_sorted(str_views(r@)),
            str_views(r@).to_set() == derived_names(str_views(files@).take(i as int)),
        decreases n - i,
    {
        let ghost pre_set = str_views(r@).to_set();
        let f = &files[i];
        let is_asset = ends_with_jpg(f);
        if is_asset {
            let disp = display_name(f);
            let tok = token_of(disp.as_str());
            let ghost dv = disp@;
            let ghost tv = tok@;
            insert_unique(&mut r, disp);
            if tok.as_str().unicode_len() > 0 {
                insert_unique(&mut r, tok);
            }
            proof {
                assert(str_views(r@).to_set() =~= pre_set + entries_of(files@[i as int]@));
            }
        } else {
            proof {
                assert(str_views(r@).to_set() =~= pre_set + entries_of(files@[i as int]@));
            }
        }
        proof {
            assert(str_views(files@).take(i + 1) =~= str_views(files@).take(i as int).push(
                files@[i as int]@,
            ));
            lemma_derived_names_push(str_views(files@).take(i as int), files@[i as int]@);
        }
        i = i + 1;
    }
    proof {
        assert(str_views(files@).take(n as int) =~= str_views(files@));
    }
    r
}

proof fn lemma_sorted_set_unique(r1: Seq<Seq<char>>, r2: Seq<Seq<char>>)
    requires
        strict_sorted(r1),
        strict_sorted(r2),
        r1.to_set() == r2.to_set(),
    ensures
        r1 == r2,
    decreases r1.len(),
{
    if r1.len() == 0 {
        if r2.len() > 0 {
            assert(r2.to_set().contains(r2[0]));
            assert(r1.to_set().contains(r2[0]));
            assert(false);
        }
        assert(r1 =~= r2);
    } else if r2.len() == 0 {
        assert(r1.to_set().contains(r1[0]));
        assert(r2.to_set().contains(r1[0]));
        assert(false);
    } else {
        assert(r1.to_set().contains(r1[0]));
        assert(r2.to_set().contains(r2[0]));
        let j = choose|j: int| 0 <= j < r2.len() && r2[j] == r1[0];
        let i = choose|i: int| 0 <= i < r1.len() && r1[i] == r2[0];
        if r1[0] != r2[0] {
            assert(j > 0 && i > 0);
            assert(lex_lt(r2[0], r2[j]));
            assert(lex_lt(r1[0], r1[i]));
            lemma_lex_trichotomy(r1[0], r2[0]);
            assert(false);
        }
        let t1 = r1.skip(1);
        let t2 = r2.skip(1);
        assert forall|a: int, b: int| 0 <= a < b < t1.len() implies lex_lt(t1[a], t1[b]) by {
            assert(t1[a] == r1[a + 1] && t1[b] == r1[b + 1]);
        }
        assert forall|a: int, b: int| 0 <= a < b < t2.len() implies lex_lt(t2[a], t2[b]) by {
            assert(t2[a] == r2[a + 1] && t2[b] == r2[b + 1]);
        }
        assert forall|x: Seq<char>|
            t1.to_set().contains(x) == r1.to_set().remove(r1[0]).contains(x) by {
            if t1.to_set().contains(x) {
                let k = choose|k: int| 0 <= k < t1.len() && t1[k] == x;
                assert(r1[k + 1] == x);
                assert(lex_lt(r1[0], r1[k + 1]));
                lemma_lex_trichotomy(r1[0], x);
            }
            if r1.to_set().remove(r1[0]).contains(x) {
                let k = choose|k: int| 0 <= k < r1.len() && r1[k] == x;
                assert(k > 0);
                assert(t1[k - 1] == x);
            }
        }
        assert forall|x: Seq<char>|
            t2.to_set().contains(x) == r2.to_set().remove(r2[0]).contains(x) by {
            if t2.to_set().contains(x) {
                let k = choose|k: int| 0 <= k < t2.len() && t2[k] == x;
                assert(r2[k + 1] == x);
                assert(lex_lt(r2[0], r2[k + 1]));
                lemma_lex_trichotomy(r2[0], x);
            }
            if r2.to_set().remove(r2[0]).contains(x) {
                let k = choose|k: int| 0 <= k < r2.len() && r2[k] == x;
                assert(k > 0);
                assert(t2[k - 1] == x);
            }
        }
        assert(t1.to_set() =~= t2.to_set());
        lemma_sorted_set_unique(t1, t2);
        assert forall|k: int| 0 <= k < r1.len() implies r1[k] == r2[k] by {
            if k > 0 {
                assert(r1[k] == t1[k - 1] && r2[k] == t2[k - 1]);
            }
        }
        assert(r1 =~= r2);
    }
}

/// Generating the name list is idempotent: any two sorted, duplicate-free
/// lists holding exactly the names derived from the same asset files are the
/// same list, so regenerating over an unchanged directory changes nothing.
pub proof fn lemma_name_list_idempotent(
    files: Seq<Seq<char>>,
    r1: Seq<Seq<char>>,
    r2: Seq<Seq<char>>,
)
    requires
        strict_sorted(r1),
        r1.to_set() == derived_names(files),
        strict_sorted(r2),
        r2.to_set() == derived_names(files),
    ensures
        r1 == r2,
{
    lemma_sorted_set_unique(r1, r2);
}

} // verus!
