//! Which documentation pages to look for: the languages to try, and in which
//! folders and order to look.
use vstd::prelude::*;

use crate::text::{char_at, chars_of, lemma_split_nonempty, push_range, split_on, views_of};

verus! {

/// `acc` with `x` added at the end, unless it is already there.
pub open spec fn push_new(acc: Seq<Seq<char>>, x: Seq<char>) -> Seq<Seq<char>> {
    if acc.contains(x) {
        acc
    } else {
        acc.push(x)
    }
}

/// `acc` with each of `items` added in turn, unless already there.
pub open spec fn push_all_new(acc: Seq<Seq<char>>, items: Seq<Seq<char>>) -> Seq<Seq<char>>
    decreases items.len(),
{
    if items.len() == 0 {
        acc
    } else {
        push_new(push_all_new(acc, items.drop_last()), items.last())
    }
}

/// The language always looked in last.
pub open spec fn english() -> Seq<char> {
    seq!['e', 'n']
}

/// The languages to look for pages in, from the values of `LANG` and `LANGUAGE`.
/// Without `LANG`, English alone. Otherwise the `:`-separated entries of
/// `LANGUAGE`, then the first two characters of `LANG`, then English, each kept
/// only the first time it comes.
pub open spec fn languages_of(lang: Option<Seq<char>>, language: Option<Seq<char>>) -> Seq<Seq<char>> {
    match lang {
        None => seq![english()],
        Some(l) => {
            let listed = match language {
                Some(g) => push_all_new(Seq::empty(), split_on(g, ':')),
                None => Seq::empty(),
            };
            push_new(push_new(listed, l.take(2)), english())
        },
    }
}

/// The characters of an optional string.
pub open spec fn opt_view(s: Option<&str>) -> Option<Seq<char>> {
    match s {
        Some(x) => Some(x@),
        None => None,
    }
}

fn string_eq(a: &String, b: &String) -> (r: bool)
    ensures
        r == (a@ == b@),
{
    let av = chars_of(a.as_str());
    let bv = chars_of(b.as_str());
    if av.len() != bv.len() {
        return false;
    }
    let mut i: usize = 0;
    while i < av.len()
        invariant
            av@ == a@,
            bv@ == b@,
            av@.len() == bv@.len(),
            i <= av@.len(),
            forall|j: int| 0 <= j < i ==> av@[j] == bv@[j],
        decreases av.len() - i,
    {
        if char_at(&av, i) != char_at(&bv, i) {
            return false;
        }
        i = i + 1;
    }
    assert(av@ =~= bv@);
    true
}

fn add_new(acc: &mut Vec<String>, x: String)
    ensures
        views_of(final(acc)@) == push_new(views_of(old(acc)@), x@),
{
    let ghost before = views_of(acc@);
    let mut i: usize = 0;
    while i < acc.len()
        invariant
            before == views_of(acc@),
            i <= acc@.len(),
            forall|j: int| 0 <= j < i ==> acc@[j]@ != x@,
        decreases acc.len() - i,
    {
        if string_eq(&acc[i], &x) {
            assert(before[i as int] == x@);
            return;
        }
        i = i + 1;
    }
    assert(!before.contains(x@)) by {
        if before.contains(x@) {
            let j = choose|j: int| 0 <= j < before.len() && before[j] == x@;
            assert(acc@[j]@ == x@);
        }
    }
    acc.push(x);
    assert(views_of(acc@) =~= before.push(x@));
}

/// Splits `s` at every `sep`, adding each piece to `acc` unless already there.
fn add_pieces(acc: &mut Vec<String>, s: &str, sep: char)
    ensures
        views_of(final(acc)@) == push_all_new(views_of(old(acc)@), split_on(s@, sep)),
{
    let v = chars_of(s);
    let ghost start = views_of(acc@);
    let mut piece_start: usize = 0;
    let mut i: usize = 0;
    assert(v@.take(0) =~= Seq::<char>::empty());
    while i < v.len()
        invariant
            v@ == s@,
            piece_start <= i <= v@.len(),
            split_on(v@.take(i as int), sep) == split_on(v@.take(piece_start as int), sep).drop_last()
                .push(v@.subrange(piece_start as int, i as int)),
            views_of(acc@) == push_all_new(start, split_on(v@.take(i as int), sep).drop_last()),
        decreases v.len() - i,
    {
        let c = char_at(&v, i);
        let ghost pre = v@.take(i as int);
        let ghost pieces = split_on(pre, sep);
        proof {
            lemma_split_nonempty(pre, sep);
            assert(v@.take(i + 1).drop_last() =~= pre);
            assert(v@.take(i + 1).last() == c);
        }
        if c == sep {
            let mut piece = String::new();
            push_range(&mut piece, &v, piece_start, i);
            add_new(acc, piece);
            proof {
                let next = split_on(v@.take(i + 1), sep);
                assert(next == pieces.push(Seq::empty()));
                assert(next.drop_last() =~= pieces);
                assert(piece@ =~= v@.subrange(piece_start as int, i as int));
                assert(pieces.last() == piece@);
                assert(pieces.drop_last().push(pieces.last()) =~= pieces);
                assert(v@.subrange(i + 1, i + 1) =~= Seq::<char>::empty());
                assert(next.drop_last().push(Seq::<char>::empty()) =~= next);
            }
            piece_start = i + 1;
        } else {
            proof {
                let next = split_on(v@.take(i + 1), sep);
                assert(next == pieces.update(pieces.len() - 1, pieces.last().push(c)));
                assert(next.drop_last() =~= pieces.drop_last());
                assert(v@.subrange(piece_start as int, i + 1) =~= v@.subrange(
                    piece_start as int,
                    i as int,
                ).push(c));
                assert(next =~= split_on(v@.take(piece_start as int), sep).drop_last().push(
                    v@.subrange(piece_start as int, i + 1),
                ));
            }
        }
        i = i + 1;
    }
    let mut last = String::new();
    push_range(&mut last, &v, piece_start, v.len());
    add_new(acc, last);
    proof {
        let all = split_on(v@.take(i as int), sep);
        lemma_split_nonempty(v@.take(i as int), sep);
        assert(v@.take(i as int) =~= s@);
        assert(all.drop_last().push(all.last()) =~= all);
        assert(all.last() == last@);
    }
}

/// The languages to look for pages in, given the values of `LANG` and `LANGUAGE`
/// if they are set.
pub fn get_languages(lang: Option<&str>, language: Option<&str>) -> (r: Vec<String>)
    requires
        lang is Some ==> lang->0@.len() >= 2,
    ensures
        views_of(r@) == languages_of(opt_view(lang), opt_view(language)),
{
    let mut result: Vec<String> = Vec::new();
    proof {
        reveal_strlit("en");
    }
    assert("en"@ =~= english());
    match lang {
        None => {
            result.push("en".to_owned());
            assert(views_of(result@) =~= seq![english()]);
            result
        },
        Some(l) => {
            assert(views_of(result@) =~= Seq::<Seq<char>>::empty());
            match language {
                Some(g) => add_pieces(&mut result, g, ':'),
                None => {},
            }
            let lv = chars_of(l);
            let mut short = String::new();
            push_range(&mut short, &lv, 0, 2);
            assert(short@ =~= l@.take(2));
            add_new(&mut result, short);
            add_new(&mut result, "en".to_owned());
            result
        },
    }
}

/// The folders to look in, in order: the chosen platform first, then each known one.
pub open spec fn page_folders(platform: Seq<char>) -> Seq<Seq<char>> {
    seq![
        platform,
        "common"@,
        "android"@,
        "freebsd"@,
        "linux"@,
        "netbsd"@,
        "openbsd"@,
        "osx"@,
        "sunos"@,
        "windows"@,
    ]
}

/// Where the page `name` in `language` and `folder` lies, below the cache.
pub open spec fn page_path(name: Seq<char>, language: Seq<char>, folder: Seq<char>) -> Seq<char> {
    "pages."@ + language + "/"@ + folder + "/"@ + name + ".md"@
}

/// The places to look for page `name`, in order, each with its folder: every
/// folder of the first language, then of the second, and so on.
pub open spec fn candidates_of(name: Seq<char>, platform: Seq<char>, languages: Seq<Seq<char>>) -> Seq<
    (Seq<char>, Seq<char>),
>
    decreases languages.len(),
{
    if languages.len() == 0 {
        Seq::empty()
    } else {
        candidates_of(name, platform, languages.drop_last()) + page_folders(platform).map_values(
            |f: Seq<char>| (page_path(name, languages.last(), f), f),
        )
    }
}

/// The views of a list of string pairs.
pub open spec fn pair_views(v: Seq<(String, String)>) -> Seq<(Seq<char>, Seq<char>)> {
    v.map_values(|p: (String, String)| (p.0@, p.1@))
}

/// The platform to look in first: the one asked for, else the running system's.
pub open spec fn first_platform(platform: Option<Seq<char>>, current_os: Seq<char>) -> Seq<char> {
    match platform {
        Some(p) => p,
        None => current_os,
    }
}

fn folder_list(platform: &str) -> (r: Vec<String>)
    ensures
        views_of(r@) == page_folders(platform@),
{
    let mut r: Vec<String> = Vec::new();
    r.push(platform.to_owned());
    r.push("common".to_owned());
    r.push("android".to_owned());
    r.push("freebsd".to_owned());
    r.push("linux".to_owned());
    r.push("netbsd".to_owned());
    r.push("openbsd".to_owned());
    r.push("osx".to_owned());
    r.push("sunos".to_owned());
    r.push("windows".to_owned());
    assert(views_of(r@) =~= page_folders(platform@));
    r
}

/// The places to look for page `name` below the cache, in the order to try them,
/// each with the folder it is in.
pub fn page_candidates(
    name: &str,
    platform: Option<&str>,
    current_os: &str,
    languages: &Vec<String>,
) -> (r: Vec<(String, String)>)
    ensures
        pair_views(r@) == candidates_of(
            name@,
            first_platform(opt_view(platform), current_os@),
            views_of(languages@),
        ),
{
    let first = match platform {
        Some(p) => p,
        None => current_os,
    };
    let folders = folder_list(first);
    let ghost fs = page_folders(first@);
    let ghost langs = views_of(languages@);
    let mut out: Vec<(String, String)> = Vec::new();
    let mut i: usize = 0;
    assert(langs.take(0) =~= Seq::<Seq<char>>::empty());
    while i < languages.len()
        invariant
            i <= languages@.len(),
            views_of(folders@) == fs,
            fs == page_folders(first@),
            langs == views_of(languages@),
            pair_views(out@) == candidates_of(name@, first@, langs.take(i as int)),
        decreases languages.len() - i,
    {
        let ghost base = pair_views(out@);
        let mut j: usize = 0;
        while j < folders.len()
            invariant
                i < languages@.len(),
                j <= folders@.len(),
                views_of(folders@) == fs,
                fs.len() == folders@.len(),
                langs == views_of(languages@),
                pair_views(out@) == base + fs.take(j as int).map_values(
                    |f: Seq<char>| (page_path(name@, langs[i as int], f), f),
                ),
            decreases folders.len() - j,
        {
            let mut path = String::new();
            path.append("pages.");
            path.append(languages[i].as_str());
            path.append("/");
            path.append(folders[j].as_str());
            path.append("/");
            path.append(name);
            path.append(".md");
            let folder = folders[j].clone();
            assert(langs[i as int] == languages@[i as int]@);
            assert(fs[j as int] == folders@[j as int]@);
            assert(path@ =~= page_path(name@, langs[i as int], fs[j as int]));
            let ghost before = out@;
            out.push((path, folder));
            assert(pair_views(out@) =~= pair_views(before).push((path@, folder@)));
            assert(fs.take(j + 1) =~= fs.take(j as int).push(fs[j as int]));
            assert(pair_views(out@) =~= base + fs.take(j + 1).map_values(
                |f: Seq<char>| (page_path(name@, langs[i as int], f), f),
            ));
            j = j + 1;
        }
        assert(fs.take(j as int) =~= fs);
        assert(langs.take(i + 1).drop_last() =~= langs.take(i as int));
        assert(langs.take(i + 1).last() == langs[i as int]);
        i = i + 1;
    }
    assert(langs.take(i as int) =~= langs);
    out
}

} // verus!
