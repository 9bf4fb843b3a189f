//! How a stdio MCP server is launched: the `PATH` handed to it, the absolute
//! path its command resolves to, and the environment it receives.

use vstd::prelude::*;
use crate::name_map::NameMap;
use crate::text::{concat, concat3, join_char, join_with, split_char, split_on, spec_trim, starts_with, str_eq, trim, views, is_prefix, opt_str};

verus! {

/// The directories that are put in front of `PATH` where missing: user-level
/// tool managers, Homebrew, `/usr/local/bin`, then the installed nvm versions.
pub open spec fn extra_dirs(home: Seq<char>, nvm_bins: Seq<Seq<char>>) -> Seq<Seq<char>> {
    seq![
        home + "/.local/bin"@,
        home + "/.volta/bin"@,
        home + "/.fnm/current/bin"@,
        "/opt/homebrew/bin"@,
        "/opt/homebrew/sbin"@,
        "/usr/local/bin"@,
    ] + nvm_bins
}

/// The non-empty pieces, in order.
pub open spec fn nonempty_pieces(ps: Seq<Seq<char>>) -> Seq<Seq<char>>
    decreases ps.len(),
{
    if ps.len() == 0 {
        Seq::empty()
    } else {
        let rest = nonempty_pieces(ps.drop_last());
        if ps.last().len() > 0 {
            rest.push(ps.last())
        } else {
            rest
        }
    }
}

/// Puts each of `extra` in front of `parts` unless it is already there,
/// working from the last one back, so that the added ones keep the order
/// they have in `extra`.
pub open spec fn prepend_missing(extra: Seq<Seq<char>>, parts: Seq<Seq<char>>) -> Seq<Seq<char>>
    decreases extra.len(),
{
    if extra.len() == 0 {
        parts
    } else {
        let l = extra.last();
        let next = if parts.contains(l) {
            parts
        } else {
            seq![l] + parts
        };
        prepend_missing(extra.drop_last(), next)
    }
}

/// The `PATH` a server subprocess is given: the current `PATH`, with its
/// empty entries dropped and the extra directories prepended where missing.
pub open spec fn spec_augmented_path(current: Seq<char>, home: Seq<char>, nvm_bins: Seq<Seq<char>>) -> Seq<char> {
    join_with(prepend_missing(extra_dirs(home, nvm_bins), nonempty_pieces(split_on(current, ':'))), ':')
}

fn contains_string(v: &Vec<String>, s: &String) -> (r: bool)
    ensures
        r == views(v@).contains(s@),
{
    let mut i: usize = 0;
    while i < v.len()
        invariant
            i <= v.len(),
            forall|j: int| 0 <= j < i ==> v@[j]@ != s@,
        decreases v.len() - i,
    {
        if v[i] == *s {
            assert(views(v@)[i as int] == s@);
            return true;
        }
        i = i + 1;
    }
    assert forall|j: int| 0 <= j < views(v@).len() implies views(v@)[j] != s@ by {
        assert(v@[j]@ != s@);
    }
    false
}

/// Build a PATH that includes all well-known tool install directories so that
/// processes spawned by orca (MCP servers and their children) can find CLIs
/// like `node`, `npx`, etc. even in minimal daemon environments. `current` is
/// the current `PATH`, `home` the home directory, and `nvm_bins` the `bin`
/// directories of the installed nvm node versions.
pub fn augmented_path(current: &str, home: &str, nvm_bins: &Vec<String>) -> (r: String)
    ensures
        r@ == spec_augmented_path(current@, home@, views(nvm_bins@)),
{
    let mut extra: Vec<String> = vec![
        concat(home, "/.local/bin"),
        concat(home, "/.volta/bin"),
        concat(home, "/.fnm/current/bin"),
        "/opt/homebrew/bin".to_owned(),
        "/opt/homebrew/sbin".to_owned(),
        "/usr/local/bin".to_owned(),
    ];
    let ghost fixed = views(extra@);
    let mut k: usize = 0;
    while k < nvm_bins.len()
        invariant
            k <= nvm_bins.len(),
            fixed.len() == 6,
            views(extra@) == fixed + views(nvm_bins@).take(k as int),
        decreases nvm_bins.len() - k,
    {
        let ghost before = views(extra@);
        let c = nvm_bins[k].clone();
        extra.push(c);
        assert(views(extra@) =~= before.push(c@));
        assert(views(nvm_bins@).take(k + 1) =~= views(nvm_bins@).take(k as int).push(c@));
        assert(views(extra@) =~= fixed + views(nvm_bins@).take(k + 1));
        k = k + 1;
    }
    assert(views(extra@) =~= extra_dirs(home@, views(nvm_bins@)));

    let pieces = split_char(current, ':');
    let mut parts: Vec<String> = Vec::new();
    let mut i: usize = 0;
    while i < pieces.len()
        invariant
            i <= pieces.len(),
            views(parts@) == nonempty_pieces(views(pieces@).take(i as int)),
        decreases pieces.len() - i,
    {
        assert(views(pieces@).take(i + 1).drop_last() =~= views(pieces@).take(i as int));
        if !pieces[i].as_str().is_empty() {
            parts.push(pieces[i].clone());
            assert(views(parts@) =~= nonempty_pieces(views(pieces@).take(i as int)).push(pieces@[i as int]@));
        }
        i = i + 1;
    }
    assert(views(pieces@).take(pieces.len() as int) =~= views(pieces@));

    let ghost target = prepend_missing(views(extra@), views(parts@));
    assert(views(extra@).take(extra.len() as int) =~= views(extra@));
    let mut j: usize = extra.len();
    while j > 0
        invariant
            j <= extra.len(),
            prepend_missing(views(extra@).take(j as int), views(parts@)) == target,
        decreases j,
    {
        let ghost e = views(extra@).take(j as int);
        assert(e.drop_last() =~= views(extra@).take(j - 1));
        let d = &extra[j - 1];
        if !contains_string(&parts, d) {
            let ghost before = views(parts@);
            parts.insert(0, d.clone());
            assert(views(parts@) =~= seq![d@] + before);
        }
        j = j - 1;
    }
    join_char(&parts, ':')
}


/// How often `x` occurs in `s`.
pub open spec fn count_of(s: Seq<Seq<char>>, x: Seq<char>) -> nat
    decreases s.len(),
{
    if s.len() == 0 {
        0
    } else {
        (if s[0] == x { 1nat } else { 0nat }) + count_of(s.drop_first(), x)
    }
}

proof fn lemma_count_prepend(l: Seq<char>, p: Seq<Seq<char>>, x: Seq<char>)
    ensures
        count_of(seq![l] + p, x) == (if l == x { 1nat } else { 0nat }) + count_of(p, x),
{
    assert((seq![l] + p).drop_first() =~= p);
}

proof fn lemma_count_contains(s: Seq<Seq<char>>, x: Seq<char>)
    ensures
        count_of(s, x) > 0 <==> s.contains(x),
    decreases s.len(),
{
    if s.len() > 0 {
        lemma_count_contains(s.drop_first(), x);
        if s.drop_first().contains(x) {
            let i = choose|i: int| 0 <= i < s.drop_first().len() && s.drop_first()[i] == x;
            assert(s[i + 1] == x);
        }
        if s.contains(x) && s[0] != x {
            let i = choose|i: int| 0 <= i < s.len() && s[i] == x;
            assert(s.drop_first()[i - 1] == x);
        }
    }
}

proof fn lemma_contains_prepend(l: Seq<char>, p: Seq<Seq<char>>, x: Seq<char>)
    ensures
        (seq![l] + p).contains(x) <==> (l == x || p.contains(x)),
{
    let q = seq![l] + p;
    if q.contains(x) && l != x {
        let i = choose|i: int| 0 <= i < q.len() && q[i] == x;
        assert(p[i - 1] == x);
    }
    if p.contains(x) {
        let i = choose|i: int| 0 <= i < p.len() && p[i] == x;
        assert(q[i + 1] == x);
    }
    if l == x {
        assert(q[0] == x);
    }
}

proof fn lemma_contains_drop_last(e: Seq<Seq<char>>, x: Seq<char>)
    requires
        e.len() > 0,
    ensures
        e.contains(x) <==> (e.last() == x || e.drop_last().contains(x)),
{
    if e.contains(x) && e.last() != x {
        let i = choose|i: int| 0 <= i < e.len() && e[i] == x;
        assert(e.drop_last()[i] == x);
    }
    if e.drop_last().contains(x) {
        let i = choose|i: int| 0 <= i < e.drop_last().len() && e.drop_last()[i] == x;
        assert(e[i] == x);
    }
    if e.last() == x {
        assert(e[e.len() - 1] == x);
    }
}

proof fn lemma_prepend_count(e: Seq<Seq<char>>, p: Seq<Seq<char>>, d: Seq<char>)
    ensures
        count_of(prepend_missing(e, p), d) == (if p.contains(d) || !e.contains(d) {
            count_of(p, d)
        } else {
            1
        }),
    decreases e.len(),
{
    if e.len() > 0 {
        let l = e.last();
        let next = if p.contains(l) { p } else { seq![l] + p };
        lemma_prepend_count(e.drop_last(), next, d);
        lemma_contains_drop_last(e, d);
        if !p.contains(l) {
            lemma_count_prepend(l, p, d);
            lemma_contains_prepend(l, p, d);
            lemma_count_contains(p, d);
        }
    }
}

proof fn lemma_prepend_members(e: Seq<Seq<char>>, p: Seq<Seq<char>>, x: Seq<char>)
    ensures
        prepend_missing(e, p).contains(x) ==> e.contains(x) || p.contains(x),
    decreases e.len(),
{
    if e.len() > 0 {
        let l = e.last();
        let next = if p.contains(l) { p } else { seq![l] + p };
        lemma_prepend_members(e.drop_last(), next, x);
        lemma_contains_drop_last(e, x);
        lemma_contains_prepend(l, p, x);
    }
}

proof fn lemma_prepend_suffix(e: Seq<Seq<char>>, p: Seq<Seq<char>>)
    ensures
        exists|a: Seq<Seq<char>>| prepend_missing(e, p) == a + p,
    decreases e.len(),
{
    if e.len() == 0 {
        assert(prepend_missing(e, p) == Seq::<Seq<char>>::empty() + p);
    } else {
        let l = e.last();
        let next = if p.contains(l) { p } else { seq![l] + p };
        lemma_prepend_suffix(e.drop_last(), next);
        let a = choose|a: Seq<Seq<char>>| prepend_missing(e.drop_last(), next) == a + next;
        if p.contains(l) {
            assert(prepend_missing(e, p) == a + p);
        } else {
            assert(a + next =~= (a + seq![l]) + p);
        }
    }
}

proof fn lemma_split_single(t: Seq<char>, sep: char)
    requires
        !t.contains(sep),
    ensures
        split_on(t, sep) == seq![t],
    decreases t.len(),
{
    if t.len() > 0 {
        assert(!t.drop_last().contains(sep)) by {
            if t.drop_last().contains(sep) {
                let i = choose|i: int| 0 <= i < t.drop_last().len() && t.drop_last()[i] == sep;
                assert(t[i] == sep);
            }
        }
        lemma_split_single(t.drop_last(), sep);
        assert(t[t.len() - 1] != sep);
        assert(t.drop_last().push(t.last()) =~= t);
        assert(seq![t.drop_last()].update(0, t.drop_last().push(t.last())) =~= seq![t]);
    } else {
        assert(t =~= Seq::<char>::empty());
    }
}

proof fn lemma_split_append(s: Seq<char>, t: Seq<char>, sep: char)
    requires
        !t.contains(sep),
    ensures
        split_on(s.push(sep) + t, sep) == split_on(s, sep).push(t),
    decreases t.len(),
{
    if t.len() == 0 {
        assert(t =~= Seq::<char>::empty());
        assert(s.push(sep) + t =~= s.push(sep));
        assert((s.push(sep)).drop_last() =~= s);
    } else {
        assert(!t.drop_last().contains(sep)) by {
            if t.drop_last().contains(sep) {
                let i = choose|i: int| 0 <= i < t.drop_last().len() && t.drop_last()[i] == sep;
                assert(t[i] == sep);
            }
        }
        lemma_split_append(s, t.drop_last(), sep);
        assert((s.push(sep) + t).drop_last() =~= s.push(sep) + t.drop_last());
        assert((s.push(sep) + t).last() == t.last());
        assert(t[t.len() - 1] != sep);
        let p = split_on(s, sep).push(t.drop_last());
        assert(t.drop_last().push(t.last()) =~= t);
        assert(p.update(p.len() - 1, p.last().push(t.last())) =~= split_on(s, sep).push(t));
    }
}

proof fn lemma_split_join(ps: Seq<Seq<char>>, sep: char)
    requires
        ps.len() >= 1,
        forall|i: int| 0 <= i < ps.len() ==> !(#[trigger] ps[i]).contains(sep),
    ensures
        split_on(join_with(ps, sep), sep) == ps,
    decreases ps.len(),
{
    if ps.len() == 1 {
        lemma_split_single(ps[0], sep);
        assert(seq![ps[0]] =~= ps);
    } else {
        lemma_split_join(ps.drop_last(), sep);
        assert(!ps.last().contains(sep)) by {
            assert(!ps[ps.len() - 1].contains(sep));
        }
        lemma_split_append(join_with(ps.drop_last(), sep), ps.last(), sep);
        assert(ps.drop_last().push(ps.last()) =~= ps);
    }
}

proof fn lemma_split_pieces_free(s: Seq<char>, sep: char)
    ensures
        forall|i: int| 0 <= i < split_on(s, sep).len() ==> !(#[trigger] split_on(s, sep)[i]).contains(sep),
    decreases s.len(),
{
    if s.len() > 0 {
        lemma_split_pieces_free(s.drop_last(), sep);
        crate::text::lemma_split_nonempty(s.drop_last(), sep);
        let p = split_on(s.drop_last(), sep);
        if s.last() != sep {
            let q = p.update(p.len() - 1, p.last().push(s.last()));
            assert forall|i: int| 0 <= i < q.len() implies !(#[trigger] q[i]).contains(sep) by {
                if i == p.len() - 1 {
                    if q[i].contains(sep) {
                        let k = choose|k: int| 0 <= k < q[i].len() && q[i][k] == sep;
                        if k < p.last().len() {
                            assert(p[p.len() - 1][k] == sep);
                        }
                    }
                }
            }
        } else {
            let q = p.push(Seq::<char>::empty());
            assert forall|i: int| 0 <= i < q.len() implies !(#[trigger] q[i]).contains(sep) by {
                if i < p.len() {
                    assert(q[i] == p[i]);
                }
            }
        }
    }
}

proof fn lemma_nonempty_pieces(ps: Seq<Seq<char>>, sep: char)
    requires
        forall|i: int| 0 <= i < ps.len() ==> !(#[trigger] ps[i]).contains(sep),
    ensures
        forall|i: int| 0 <= i < nonempty_pieces(ps).len() ==> (#[trigger] nonempty_pieces(ps)[i]).len() > 0
            && !nonempty_pieces(ps)[i].contains(sep),
    decreases ps.len(),
{
    if ps.len() > 0 {
        assert forall|i: int| 0 <= i < ps.drop_last().len() implies !(#[trigger] ps.drop_last()[i]).contains(sep) by {
            assert(ps.drop_last()[i] == ps[i]);
        }
        lemma_nonempty_pieces(ps.drop_last(), sep);
        assert(!ps[ps.len() - 1].contains(sep));
        let r = nonempty_pieces(ps.drop_last());
        if ps.last().len() > 0 {
            let q = r.push(ps.last());
            assert forall|i: int| 0 <= i < q.len() implies (#[trigger] q[i]).len() > 0 && !q[i].contains(sep) by {
                if i < r.len() {
                    assert(q[i] == r[i]);
                }
            }
        }
    }
}

proof fn lemma_literal_suffix(home: Seq<char>, lit: Seq<char>)
    requires
        !home.contains(':'),
        !lit.contains(':'),
        lit.len() > 0,
    ensures
        !(home + lit).contains(':'),
        (home + lit).len() > 0,
{
    if (home + lit).contains(':') {
        let k = choose|k: int| 0 <= k < (home + lit).len() && (home + lit)[k] == ':';
        if k < home.len() {
            assert(home[k] == ':');
        } else {
            assert(lit[k - home.len()] == ':');
        }
    }
}

proof fn lemma_extra_dirs_clean(home: Seq<char>, nvm_bins: Seq<Seq<char>>)
    requires
        !home.contains(':'),
        forall|i: int| 0 <= i < nvm_bins.len() ==> (#[trigger] nvm_bins[i]).len() > 0 && !nvm_bins[i].contains(':'),
    ensures
        forall|i: int| 0 <= i < extra_dirs(home, nvm_bins).len() ==>
            (#[trigger] extra_dirs(home, nvm_bins)[i]).len() > 0 && !extra_dirs(home, nvm_bins)[i].contains(':'),
{
    reveal_strlit("/.local/bin");
    reveal_strlit("/.volta/bin");
    reveal_strlit("/.fnm/current/bin");
    reveal_strlit("/opt/homebrew/bin");
    reveal_strlit("/opt/homebrew/sbin");
    reveal_strlit("/usr/local/bin");
    lemma_literal_suffix(home, "/.local/bin"@);
    lemma_literal_suffix(home, "/.volta/bin"@);
    lemma_literal_suffix(home, "/.fnm/current/bin"@);
    lemma_literal_suffix(Seq::empty(), "/opt/homebrew/bin"@);
    lemma_literal_suffix(Seq::empty(), "/opt/homebrew/sbin"@);
    lemma_literal_suffix(Seq::empty(), "/usr/local/bin"@);
    assert(Seq::<char>::empty() + "/opt/homebrew/bin"@ =~= "/opt/homebrew/bin"@);
    assert(Seq::<char>::empty() + "/opt/homebrew/sbin"@ =~= "/opt/homebrew/sbin"@);
    assert(Seq::<char>::empty() + "/usr/local/bin"@ =~= "/usr/local/bin"@);
    let e = extra_dirs(home, nvm_bins);
    assert forall|i: int| 0 <= i < e.len() implies (#[trigger] e[i]).len() > 0 && !e[i].contains(':') by {
        if i >= 6 {
            assert(e[i] == nvm_bins[i - 6]);
        }
    }
}

/// The entries of the augmented `PATH`, before they are joined.
pub open spec fn augmented_entries(current: Seq<char>, home: Seq<char>, nvm_bins: Seq<Seq<char>>) -> Seq<Seq<char>> {
    prepend_missing(extra_dirs(home, nvm_bins), nonempty_pieces(split_on(current, ':')))
}

proof fn lemma_entries_clean(current: Seq<char>, home: Seq<char>, nvm_bins: Seq<Seq<char>>)
    requires
        !home.contains(':'),
        forall|i: int| 0 <= i < nvm_bins.len() ==> (#[trigger] nvm_bins[i]).len() > 0 && !nvm_bins[i].contains(':'),
    ensures
        ({
            let full = augmented_entries(current, home, nvm_bins);
            &&& full.len() >= 1
            &&& forall|i: int| 0 <= i < full.len() ==> (#[trigger] full[i]).len() > 0 && !full[i].contains(':')
            &&& split_on(spec_augmented_path(current, home, nvm_bins), ':') == full
            &&& forall|d: Seq<char>| #[trigger] extra_dirs(home, nvm_bins).contains(d) ==> full.contains(d)
        }),
{
    let e = extra_dirs(home, nvm_bins);
    let parts = nonempty_pieces(split_on(current, ':'));
    let full = prepend_missing(e, parts);
    lemma_extra_dirs_clean(home, nvm_bins);
    lemma_split_pieces_free(current, ':');
    lemma_nonempty_pieces(split_on(current, ':'), ':');
    assert forall|i: int| 0 <= i < full.len() implies (#[trigger] full[i]).len() > 0 && !full[i].contains(':') by {
        assert(full.contains(full[i]));
        lemma_prepend_members(e, parts, full[i]);
        if e.contains(full[i]) {
            let k = choose|k: int| 0 <= k < e.len() && e[k] == full[i];
            assert(e[k].len() > 0);
        } else {
            let k = choose|k: int| 0 <= k < parts.len() && parts[k] == full[i];
            assert(parts[k].len() > 0);
        }
    }
    assert forall|d: Seq<char>| #[trigger] e.contains(d) implies full.contains(d) by {
        lemma_prepend_count(e, parts, d);
        lemma_count_contains(full, d);
        if parts.contains(d) {
            lemma_count_contains(parts, d);
        }
    }
    assert(e.contains(e[0]));
    assert(full.len() >= 1) by {
        let k = choose|k: int| 0 <= k < full.len() && full[k] == e[0];
    }
    lemma_split_join(full, ':');
}

/// The augmented `PATH`, read back as `:`-separated entries, is the current
/// `PATH`'s non-empty entries with the missing extra directories in front:
/// no entry is empty; every extra directory is there, exactly once unless
/// the current `PATH` already held it (then as often as before); and the
/// current entries follow, in their order, at the end. This needs the home
/// directory and the nvm directories to be free of `:`, and the nvm
/// directories to be non-empty.
pub proof fn law_augmented_path_entries(current: Seq<char>, home: Seq<char>, nvm_bins: Seq<Seq<char>>)
    requires
        !home.contains(':'),
        forall|i: int| 0 <= i < nvm_bins.len() ==> (#[trigger] nvm_bins[i]).len() > 0 && !nvm_bins[i].contains(':'),
    ensures
        ({
            let segs = split_on(spec_augmented_path(current, home, nvm_bins), ':');
            let parts = nonempty_pieces(split_on(current, ':'));
            &&& forall|i: int| 0 <= i < segs.len() ==> (#[trigger] segs[i]).len() > 0
            &&& forall|d: Seq<char>| #[trigger] extra_dirs(home, nvm_bins).contains(d) ==> count_of(segs, d) == (
                if parts.contains(d) {
                    count_of(parts, d)
                } else {
                    1
                })
            &&& exists|added: Seq<Seq<char>>| segs == added + parts
        }),
{
    let e = extra_dirs(home, nvm_bins);
    let parts = nonempty_pieces(split_on(current, ':'));
    lemma_entries_clean(current, home, nvm_bins);
    lemma_prepend_suffix(e, parts);
    assert forall|d: Seq<char>| #[trigger] e.contains(d) implies count_of(prepend_missing(e, parts), d) == (if parts.contains(d) {
        count_of(parts, d)
    } else {
        1
    }) by {
        lemma_prepend_count(e, parts, d);
    }
}

proof fn lemma_no_dup_prepend(l: Seq<char>, p: Seq<Seq<char>>)
    requires
        p.no_duplicates(),
        !p.contains(l),
    ensures
        (seq![l] + p).no_duplicates(),
{
    let q = seq![l] + p;
    assert forall|i: int, j: int| 0 <= i < q.len() && 0 <= j < q.len() && i != j implies q[i] != q[j] by {
        if i == 0 {
            assert(p[j - 1] == q[j]);
        } else if j == 0 {
            assert(p[i - 1] == q[i]);
        } else {
            assert(q[i] == p[i - 1] && q[j] == p[j - 1]);
        }
    }
}

proof fn lemma_prepend_no_dup(e: Seq<Seq<char>>, p: Seq<Seq<char>>)
    requires
        p.no_duplicates(),
    ensures
        prepend_missing(e, p).no_duplicates(),
    decreases e.len(),
{
    if e.len() > 0 {
        let l = e.last();
        if !p.contains(l) {
            lemma_no_dup_prepend(l, p);
            lemma_prepend_no_dup(e.drop_last(), seq![l] + p);
        } else {
            lemma_prepend_no_dup(e.drop_last(), p);
        }
    }
}

/// Where the non-empty entries of the current `PATH` are pairwise distinct,
/// so are the entries of the augmented `PATH`: an extra directory is added
/// at most once, even when it is listed twice. (Same conditions on the home
/// and nvm directories as above.)
pub proof fn law_augmented_path_distinct(current: Seq<char>, home: Seq<char>, nvm_bins: Seq<Seq<char>>)
    requires
        !home.contains(':'),
        forall|i: int| 0 <= i < nvm_bins.len() ==> (#[trigger] nvm_bins[i]).len() > 0 && !nvm_bins[i].contains(':'),
        nonempty_pieces(split_on(current, ':')).no_duplicates(),
    ensures
        split_on(spec_augmented_path(current, home, nvm_bins), ':').no_duplicates(),
{
    lemma_entries_clean(current, home, nvm_bins);
    lemma_prepend_no_dup(extra_dirs(home, nvm_bins), nonempty_pieces(split_on(current, ':')));
}

proof fn lemma_nonempty_pieces_id(ps: Seq<Seq<char>>)
    requires
        forall|i: int| 0 <= i < ps.len() ==> (#[trigger] ps[i]).len() > 0,
    ensures
        nonempty_pieces(ps) == ps,
    decreases ps.len(),
{
    if ps.len() > 0 {
        assert forall|i: int| 0 <= i < ps.drop_last().len() implies (#[trigger] ps.drop_last()[i]).len() > 0 by {
            assert(ps.drop_last()[i] == ps[i]);
        }
        lemma_nonempty_pieces_id(ps.drop_last());
        assert(ps[ps.len() - 1].len() > 0);
        assert(ps.drop_last().push(ps.last()) =~= ps);
    }
}

proof fn lemma_prepend_all_present(e: Seq<Seq<char>>, p: Seq<Seq<char>>)
    requires
        forall|d: Seq<char>| #[trigger] e.contains(d) ==> p.contains(d),
    ensures
        prepend_missing(e, p) == p,
    decreases e.len(),
{
    if e.len() > 0 {
        assert(e.contains(e[e.len() - 1]));
        assert forall|d: Seq<char>| #[trigger] e.drop_last().contains(d) implies p.contains(d) by {
            lemma_contains_drop_last(e, d);
        }
        lemma_prepend_all_present(e.drop_last(), p);
    }
}

/// Augmenting an augmented `PATH` again, with the same home and nvm
/// directories, changes nothing: nothing is added, dropped or reordered.
/// (Same conditions on the home and nvm directories as above.)
pub proof fn law_augmented_path_idempotent(current: Seq<char>, home: Seq<char>, nvm_bins: Seq<Seq<char>>)
    requires
        !home.contains(':'),
        forall|i: int| 0 <= i < nvm_bins.len() ==> (#[trigger] nvm_bins[i]).len() > 0 && !nvm_bins[i].contains(':'),
    ensures
        ({
            let once = spec_augmented_path(current, home, nvm_bins);
            spec_augmented_path(once, home, nvm_bins) == once
        }),
{
    let once = spec_augmented_path(current, home, nvm_bins);
    let full = augmented_entries(current, home, nvm_bins);
    lemma_entries_clean(current, home, nvm_bins);
    lemma_nonempty_pieces_id(full);
    lemma_prepend_all_present(extra_dirs(home, nvm_bins), full);
}

// ── resolving a command to an absolute path ──────────────────────────────

/// Where a bare command is looked for, in order: the Homebrew and system
/// `bin` directories, then (with a home directory) the bin directory of the
/// default nvm node version (also with a `v` prefixed to a version that
/// lacks one), `~/.local/bin`, Volta and fnm.
pub open spec fn command_candidates(command: Seq<char>, home: Option<Seq<char>>, nvm_alias: Option<Seq<char>>) -> Seq<Seq<char>> {
    let base = seq![
        "/opt/homebrew/bin/"@ + command,
        "/usr/local/bin/"@ + command,
        "/usr/bin/"@ + command,
        "/bin/"@ + command,
    ];
    match home {
        None => base,
        Some(h) => {
            let nvm = match nvm_alias {
                None => Seq::empty(),
                Some(raw) => {
                    let ver = spec_trim(raw);
                    let first = h + "/.nvm/versions/node/"@ + ver + "/bin/"@ + command;
                    if ver.len() > 0 && ver[0] == 'v' {
                        seq![first]
                    } else {
                        seq![first, h + "/.nvm/versions/node/v"@ + ver + "/bin/"@ + command]
                    }
                },
            };
            base + nvm + seq![
                h + "/.local/bin/"@ + command,
                h + "/.volta/bin/"@ + command,
                h + "/.fnm/current/bin/"@ + command,
            ]
        },
    }
}

/// The first candidate marked as existing.
pub open spec fn first_existing(cands: Seq<Seq<char>>, exists: Seq<bool>) -> Option<Seq<char>>
    decreases cands.len(),
{
    if cands.len() == 0 || exists.len() == 0 {
        None
    } else if exists[0] {
        Some(cands[0])
    } else {
        first_existing(cands.drop_first(), exists.drop_first())
    }
}

/// The path a command resolves to: an absolute command as it is; else the
/// `which` lookup where it names an existing file; else the first existing
/// candidate; else the command unchanged.
pub open spec fn resolution(
    command: Seq<char>,
    which: Option<Seq<char>>,
    which_exists: bool,
    cands: Seq<Seq<char>>,
    exists: Seq<bool>,
) -> Seq<char> {
    if command.len() > 0 && command[0] == '/' {
        command
    } else if which is Some && which_exists {
        which->0
    } else {
        match first_existing(cands, exists) {
            Some(c) => c,
            None => command,
        }
    }
}

/// Whether `s` is an absolute path: it begins with `/`.
pub open spec fn is_absolute(s: Seq<char>) -> bool {
    s.len() > 0 && s[0] == '/'
}

proof fn lemma_first_existing_member(cands: Seq<Seq<char>>, exists: Seq<bool>)
    ensures
        first_existing(cands, exists) matches Some(c) ==> cands.contains(c),
    decreases cands.len(),
{
    if cands.len() > 0 && exists.len() > 0 && !exists[0] {
        lemma_first_existing_member(cands.drop_first(), exists.drop_first());
        if first_existing(cands, exists) is Some {
            let c = first_existing(cands, exists)->0;
            let k = choose|k: int| 0 <= k < cands.drop_first().len() && cands.drop_first()[k] == c;
            assert(cands[k + 1] == c);
        }
    } else if cands.len() > 0 && exists.len() > 0 {
        assert(cands[0] == cands[0]);
    }
}

proof fn lemma_absolute_after(a: Seq<char>, b: Seq<char>)
    requires
        is_absolute(a),
    ensures
        is_absolute(a + b),
{
    assert((a + b)[0] == a[0]);
}

proof fn lemma_candidates_absolute(command: Seq<char>, home: Option<Seq<char>>, nvm_alias: Option<Seq<char>>)
    requires
        home matches Some(h) ==> is_absolute(h),
    ensures
        forall|i: int| 0 <= i < command_candidates(command, home, nvm_alias).len() ==> is_absolute(
            #[trigger] command_candidates(command, home, nvm_alias)[i],
        ),
{
    reveal_strlit("/opt/homebrew/bin/");
    reveal_strlit("/usr/local/bin/");
    reveal_strlit("/usr/bin/");
    reveal_strlit("/bin/");
    lemma_absolute_after("/opt/homebrew/bin/"@, command);
    lemma_absolute_after("/usr/local/bin/"@, command);
    lemma_absolute_after("/usr/bin/"@, command);
    lemma_absolute_after("/bin/"@, command);
    let cs = command_candidates(command, home, nvm_alias);
    match home {
        None => {},
        Some(h) => {
            let ver = match nvm_alias {
                Some(raw) => spec_trim(raw),
                None => Seq::empty(),
            };
            lemma_absolute_after(h, "/.nvm/versions/node/"@);
            lemma_absolute_after(h + "/.nvm/versions/node/"@, ver);
            lemma_absolute_after(h + "/.nvm/versions/node/"@ + ver, "/bin/"@);
            lemma_absolute_after(h + "/.nvm/versions/node/"@ + ver + "/bin/"@, command);
            lemma_absolute_after(h, "/.nvm/versions/node/v"@);
            lemma_absolute_after(h + "/.nvm/versions/node/v"@, ver);
            lemma_absolute_after(h + "/.nvm/versions/node/v"@ + ver, "/bin/"@);
            lemma_absolute_after(h + "/.nvm/versions/node/v"@ + ver + "/bin/"@, command);
            lemma_absolute_after(h, "/.local/bin/"@);
            lemma_absolute_after(h + "/.local/bin/"@, command);
            lemma_absolute_after(h, "/.volta/bin/"@);
            lemma_absolute_after(h + "/.volta/bin/"@, command);
            lemma_absolute_after(h, "/.fnm/current/bin/"@);
            lemma_absolute_after(h + "/.fnm/current/bin/"@, command);
            assert forall|i: int| 0 <= i < cs.len() implies is_absolute(#[trigger] cs[i]) by {}
        },
    }
}

/// A command resolves to itself or to an absolute path, when the home
/// directory (if any) and the `which` result (if any) are absolute; so a
/// non-empty command never resolves to an empty path.
pub proof fn law_resolves_to_command_or_absolute(
    command: Seq<char>,
    home: Option<Seq<char>>,
    nvm_alias: Option<Seq<char>>,
    which: Option<Seq<char>>,
    which_exists: bool,
    exists: Seq<bool>,
)
    requires
        home matches Some(h) ==> is_absolute(h),
        which matches Some(w) ==> is_absolute(w),
    ensures
        ({
            let r = resolution(command, which, which_exists, command_candidates(command, home, nvm_alias), exists);
            &&& r == command || is_absolute(r)
            &&& command.len() > 0 ==> r.len() > 0
        }),
{
    let cs = command_candidates(command, home, nvm_alias);
    lemma_candidates_absolute(command, home, nvm_alias);
    lemma_first_existing_member(cs, exists);
    if first_existing(cs, exists) is Some {
        let c = first_existing(cs, exists)->0;
        let k = choose|k: int| 0 <= k < cs.len() && cs[k] == c;
        assert(is_absolute(cs[k]));
    }
}

/// Whether a file system path exists (std's `Path::exists`).
#[verifier::external_body]
fn path_exists(p: &str) -> bool {
    std::path::Path::new(p).exists()
}

/// The candidate locations of a bare command.
pub fn candidates(command: &str, home: Option<&str>, nvm_alias: Option<&str>) -> (r: Vec<String>)
    ensures
        views(r@) == command_candidates(
            command@,
            opt_str(home),
            opt_str(nvm_alias),
        ),
{
    let mut r: Vec<String> = vec![
        concat("/opt/homebrew/bin/", command),
        concat("/usr/local/bin/", command),
        concat("/usr/bin/", command),
        concat("/bin/", command),
    ];
    match home {
        None => {
            assert(views(r@) =~= command_candidates(command@, None, opt_str(nvm_alias)));
            r
        },
        Some(h) => {
            let ghost base = views(r@);
            match nvm_alias {
                Some(raw) => {
                    let ver = trim(raw);
                    let first = concat(concat3(h, "/.nvm/versions/node/", ver.as_str()).as_str(), concat("/bin/", command).as_str());
                    assert(first@ =~= h@ + "/.nvm/versions/node/"@ + ver@ + "/bin/"@ + command@);
                    r.push(first);
                    if !starts_with(ver.as_str(), "v") {
                        let second = concat(concat3(h, "/.nvm/versions/node/v", ver.as_str()).as_str(), concat("/bin/", command).as_str());
                        assert(second@ =~= h@ + "/.nvm/versions/node/v"@ + ver@ + "/bin/"@ + command@);
                        r.push(second);
                        proof {
                            reveal_strlit("v");
                            if ver@.len() > 0 && ver@[0] == 'v' {
                                assert(ver@.subrange(0, 1) =~= "v"@);
                            }
                        }
                    } else {
                        proof {
                            reveal_strlit("v");
                            assert(ver@.subrange(0, 1)[0] == ver@[0]);
                        }
                    }
                },
                None => {},
            }
            let ghost with_nvm = views(r@);
            r.push(concat3(h, "/.local/bin/", command));
            r.push(concat3(h, "/.volta/bin/", command));
            r.push(concat3(h, "/.fnm/current/bin/", command));
            assert(views(r@) =~= with_nvm + seq![
                h@ + "/.local/bin/"@ + command@,
                h@ + "/.volta/bin/"@ + command@,
                h@ + "/.fnm/current/bin/"@ + command@,
            ]);
            assert(views(r@) =~= command_candidates(command@, Some(h@), opt_str(nvm_alias)));
            r
        },
    }
}

proof fn lemma_first_existing_none(cands: Seq<Seq<char>>, exists: Seq<bool>)
    requires
        forall|j: int| 0 <= j < exists.len() ==> !exists[j],
    ensures
        first_existing(cands, exists) is None,
    decreases cands.len(),
{
    if cands.len() > 0 && exists.len() > 0 {
        lemma_first_existing_none(cands.drop_first(), exists.drop_first());
    }
}

proof fn lemma_first_existing_at(cands: Seq<Seq<char>>, exists: Seq<bool>, i: int)
    requires
        0 <= i < cands.len(),
        i < exists.len(),
        exists[i],
        forall|j: int| 0 <= j < i ==> !exists[j],
    ensures
        first_existing(cands, exists) == Some(cands[i]),
    decreases i,
{
    if i > 0 {
        lemma_first_existing_at(cands.drop_first(), exists.drop_first(), i - 1);
    }
}

/// The decision of [`resolve_command`] once the file system has been probed:
/// `which_exists` says whether the `which` result exists and `exists[i]`
/// whether candidate `i` does.
pub fn pick_resolved(
    command: &str,
    which: Option<String>,
    which_exists: bool,
    cands: &Vec<String>,
    exists: &Vec<bool>,
) -> (r: String)
    requires
        exists.len() == cands.len(),
    ensures
        r@ == resolution(command@, crate::config::opt_view(which), which_exists, views(cands@), exists@),
{
    let ghost wv = crate::config::opt_view(which);
    if starts_with(command, "/") {
        proof {
            reveal_strlit("/");
            assert(command@.subrange(0, 1)[0] == command@[0]);
        }
        return command.to_owned();
    }
    proof {
        reveal_strlit("/");
        if command@.len() > 0 && command@[0] == '/' {
            assert(command@.subrange(0, 1) =~= "/"@);
        }
    }
    match which {
        Some(w) => {
            if which_exists {
                return w;
            }
        },
        None => {},
    }
    let mut i: usize = 0;
    while i < cands.len()
        invariant
            exists.len() == cands.len(),
            i <= cands.len(),
            forall|j: int| 0 <= j < i ==> !exists@[j],
            wv == crate::config::opt_view(which),
            !(wv is Some && which_exists),
            !(command@.len() > 0 && command@[0] == '/'),
        decreases cands.len() - i,
    {
        if exists[i] {
            proof {
                lemma_first_existing_at(views(cands@), exists@, i as int);
            }
            return cands[i].clone();
        }
        i = i + 1;
    }
    proof {
        lemma_first_existing_none(views(cands@), exists@);
    }
    command.to_owned()
}

/// How a command resolves, given what the probes answered: an absolute
/// command stays as it is; else an existing `which` result is taken; else
/// the first candidate, in order, that exists; else the command unchanged.
pub proof fn law_resolution_first_existing(
    command: Seq<char>,
    which: Option<Seq<char>>,
    which_exists: bool,
    cands: Seq<Seq<char>>,
    exists: Seq<bool>,
)
    requires
        exists.len() == cands.len(),
    ensures
        ({
            let r = resolution(command, which, which_exists, cands, exists);
            let bare = !is_absolute(command) && !(which is Some && which_exists);
            &&& is_absolute(command) ==> r == command
            &&& (!is_absolute(command) && which is Some && which_exists) ==> r == which->0
            &&& forall|k: int|
                #![trigger exists[k]]
                bare && 0 <= k < cands.len() && exists[k] && (forall|j: int| 0 <= j < k ==> !exists[j]) ==> r
                    == cands[k]
            &&& (bare && forall|j: int| 0 <= j < cands.len() ==> !exists[j]) ==> r == command
        }),
{
    assert forall|k: int|
        #![trigger exists[k]]
        0 <= k < cands.len() && exists[k] && (forall|j: int| 0 <= j < k ==> !exists[j]) implies first_existing(
        cands,
        exists,
    ) == Some(cands[k]) by {
        lemma_first_existing_at(cands, exists, k);
    }
    if forall|j: int| 0 <= j < cands.len() ==> !exists[j] {
        lemma_first_existing_none(cands, exists);
    }
}

/// Whether `b` is an answer of `probe` for a path whose characters are `c`.
pub open spec fn answered<F: Fn(&str) -> bool>(probe: F, c: Seq<char>, b: bool) -> bool {
    exists|p: &str| p@ == c && #[trigger] call_ensures(probe, (p,), b)
}

/// Whether `b` is what the file system answered when asked whether the path
/// `c` exists (a call of `Path::exists` on it).
pub closed spec fn probed(c: Seq<char>, b: bool) -> bool {
    answered(path_exists, c, b)
}

/// Probes each candidate, in order.
fn probe_each<F: Fn(&str) -> bool>(cands: &Vec<String>, probe: F) -> (r: Vec<bool>)
    requires
        forall|p: &str| call_requires(probe, (p,)),
    ensures
        r@.len() == cands@.len(),
        forall|i: int| 0 <= i < cands@.len() ==> answered(probe, cands@[i]@, #[trigger] r@[i]),
{
    let mut r: Vec<bool> = Vec::new();
    let mut i: usize = 0;
    while i < cands.len()
        invariant
            i <= cands.len(),
            r@.len() == i,
            forall|p: &str| call_requires(probe, (p,)),
            forall|j: int| 0 <= j < i ==> answered(probe, cands@[j]@, #[trigger] r@[j]),
        decreases cands.len() - i,
    {
        let p = cands[i].as_str();
        let b = probe(p);
        r.push(b);
        assert(answered(probe, cands@[i as int]@, r@[i as int]));
        i = i + 1;
    }
    r
}

/// Resolve a bare command name to an absolute path. Launchd and other
/// minimal environments strip PATH down to system directories, so `node`,
/// `npx`, etc. won't be found even when they're installed. `which` is the
/// result of a `PATH` lookup, `home` the home directory and `nvm_alias` the
/// text of nvm's default alias file; the file system is probed here.
pub fn resolve_command(command: &str, home: Option<&str>, nvm_alias: Option<&str>, which: Option<String>) -> (r: String)
    ensures
        exists|which_exists: bool, exists: Seq<bool>|
            exists.len() == command_candidates(command@, opt_str(home), opt_str(nvm_alias)).len() && (forall|i: int|
                0 <= i < exists.len() ==> probed(
                    command_candidates(command@, opt_str(home), opt_str(nvm_alias))[i],
                    #[trigger] exists[i],
                )) && (which matches Some(w) ==> probed(w@, which_exists)) && r@ == #[trigger] resolution(
                command@,
                crate::config::opt_view(which),
                which_exists,
                command_candidates(command@, opt_str(home), opt_str(nvm_alias)),
                exists,
            ),
{
    let cands = candidates(command, home, nvm_alias);
    let which_exists = match &which {
        Some(w) => ask(w.as_str(), path_exists),
        None => false,
    };
    let exists = probe_each(&cands, path_exists);
    let ghost wv = crate::config::opt_view(which);
    let r = pick_resolved(command, which, which_exists, &cands, &exists);
    proof {
        let cs = command_candidates(command@, opt_str(home), opt_str(nvm_alias));
        assert forall|i: int| 0 <= i < cs.len() implies probed(cs[i], #[trigger] exists@[i]) by {
            assert(views(cands@)[i] == cands@[i]@);
        }
        assert(r@ == resolution(command@, wv, which_exists, cs, exists@));
    }
    r
}

/// Asks `probe` about one path.
fn ask<F: Fn(&str) -> bool>(p: &str, probe: F) -> (b: bool)
    requires
        forall|q: &str| call_requires(probe, (q,)),
    ensures
        answered(probe, p@, b),
{
    let b = probe(p);
    assert(answered(probe, p@, b));
    b
}

// ── the environment of a stdio server ────────────────────────────────────

/// The value of the first variable named `key`.
pub open spec fn first_var(vars: Seq<(Seq<char>, Seq<char>)>, key: Seq<char>) -> Option<Seq<char>>
    decreases vars.len(),
{
    if vars.len() == 0 {
        None
    } else if vars[0].0 == key {
        Some(vars[0].1)
    } else {
        first_var(vars.drop_first(), key)
    }
}

pub open spec fn pairs_view(v: Seq<(String, String)>) -> Seq<(Seq<char>, Seq<char>)> {
    v.map_values(|p: (String, String)| (p.0@, p.1@))
}

/// The entries of a string map, in name order.
pub open spec fn map_pairs(m: NameMap<String>) -> Seq<(Seq<char>, Seq<char>)> {
    m.names().map_values(|k: Seq<char>| (k, m.view()[k]@))
}

/// The variables set on a stdio server, in order (a later setting of a name
/// overrides an earlier one): the augmented `PATH`, `DOCKER_HOST` where the
/// host exposes one, then the configuration's own variables.
pub open spec fn spec_child_env(
    env: NameMap<String>,
    path: Seq<char>,
    exposed: Seq<(Seq<char>, Seq<char>)>,
) -> Seq<(Seq<char>, Seq<char>)> {
    seq![("PATH"@, path)] + match first_var(exposed, "DOCKER_HOST"@) {
        Some(h) => seq![("DOCKER_HOST"@, h)],
        None => Seq::empty(),
    } + map_pairs(env)
}

fn find_var(vars: &Vec<(String, String)>, key: &str) -> (r: Option<String>)
    ensures
        crate::config::opt_view(r) == first_var(pairs_view(vars@), key@),
{
    assert(pairs_view(vars@).skip(0) =~= pairs_view(vars@));
    let mut i: usize = 0;
    while i < vars.len()
        invariant
            i <= vars.len(),
            first_var(pairs_view(vars@), key@) == first_var(pairs_view(vars@).skip(i as int), key@),
        decreases vars.len() - i,
    {
        let ghost rest = pairs_view(vars@).skip(i as int);
        assert(rest.drop_first() =~= pairs_view(vars@).skip(i + 1));
        if str_eq(vars[i].0.as_str(), key) {
            return Some(vars[i].1.clone());
        }
        i = i + 1;
    }
    assert(pairs_view(vars@).skip(i as int).len() == 0);
    None
}

/// The variables to set on a stdio server: `PATH`, the `DOCKER_HOST` that the
/// host exposes to subprocesses (`exposed`), then the configured ones.
pub fn child_env(env: &NameMap<String>, path: String, exposed: &Vec<(String, String)>) -> (r: Vec<(String, String)>)
    ensures
        pairs_view(r@) == spec_child_env(*env, path@, pairs_view(exposed@)),
{
    let mut r: Vec<(String, String)> = vec![("PATH".to_owned(), path)];
    match find_var(exposed, "DOCKER_HOST") {
        Some(h) => {
            r.push(("DOCKER_HOST".to_owned(), h));
        },
        None => {},
    }
    let ghost head = pairs_view(r@);
    let names = env.names_vec();
    let mut i: usize = 0;
    while i < env.len()
        invariant
            i <= env.names().len(),
            pairs_view(r@) == head + map_pairs(*env).take(i as int),
        decreases env.names().len() - i,
    {
        let (k, v) = env.entry_at(i);
        let ghost before = pairs_view(r@);
        r.push((k.clone(), v.clone()));
        assert(pairs_view(r@) =~= before.push((k@, v@)));
        assert(map_pairs(*env).take(i + 1) =~= map_pairs(*env).take(i as int).push((k@, v@)));
        i = i + 1;
    }
    assert(map_pairs(*env).take(env.names().len() as int) =~= map_pairs(*env));
    assert(pairs_view(r@) =~= spec_child_env(*env, path@, pairs_view(exposed@)));
    r
}

} // verus!
