//! Names the library gives to files: the Premiere project of a new client,
//! and collision-free names for sorted files.

use vstd::prelude::*;

use crate::modes::{name_extension, name_stem, split_file_name, has_extension};
use crate::text::{chars_of, decimal, decimal_string, last_index, lemma_decimal_injective, lemma_decimal_value, lemma_last_index_bounds, push_char, string_from_range, text_eq};

verus! {

// ---------------------------------------------------------------------------
// Client project file
// ---------------------------------------------------------------------------

/// The pieces of `s` between underscores, as `str::split('_')` yields them
/// (always at least one, possibly empty).
pub open spec fn split_underscores(s: Seq<char>) -> Seq<Seq<char>>
    decreases s.len(),
{
    let k = last_index(s, '_');
    if k < 0 {
        seq![s]
    } else {
        proof {
            lemma_last_index_bounds(s, '_');
        }
        split_underscores(s.subrange(0, k)).push(s.subrange(k + 1, s.len() as int))
    }
}

/// The non-empty pieces of `ps`, in order.
pub open spec fn nonempty_parts(ps: Seq<Seq<char>>) -> Seq<Seq<char>>
    decreases ps.len(),
{
    if ps.len() == 0 {
        ps
    } else if ps.last().len() == 0 {
        nonempty_parts(ps.drop_last())
    } else {
        nonempty_parts(ps.drop_last()).push(ps.last())
    }
}

/// The pieces of `ps` joined with `_` between them.
pub open spec fn join_underscores(ps: Seq<Seq<char>>) -> Seq<char>
    decreases ps.len(),
{
    if ps.len() == 0 {
        Seq::empty()
    } else if ps.len() == 1 {
        ps[0]
    } else {
        join_underscores(ps.drop_last()) + seq!['_'] + ps.last()
    }
}

/// The client types that may end a client folder name.
pub open spec fn is_client_type(p: Seq<char>) -> bool {
    ||| p == "EXHIBITOR"@
    ||| p == "HUDDLE"@
    ||| p == "PRODUCT"@
    ||| p == "MARIYAMEETS"@
    ||| p == "SOCIAL"@
}

/// The stem of a client's Premiere project: the non-empty `_`-separated
/// pieces of the client name, without a trailing client type when there is
/// more than one piece, joined again with `_`. A name with no non-empty
/// piece (made only of underscores) is kept as it is, which is also what
/// trimming it gives.
pub open spec fn project_stem(client_name: Seq<char>) -> Seq<char> {
    let parts = nonempty_parts(split_underscores(client_name));
    if parts.len() > 1 && is_client_type(parts.last()) {
        join_underscores(parts.drop_last())
    } else if parts.len() == 0 {
        client_name
    } else {
        join_underscores(parts)
    }
}

/// The file name of a client's Premiere project.
pub open spec fn project_file_name(client_name: Seq<char>) -> Seq<char> {
    project_stem(client_name) + ".prproj"@
}

/// The views of a vector of strings.
pub open spec fn texts(v: Seq<String>) -> Seq<Seq<char>> {
    v.map_values(|s: String| s@)
}

proof fn lemma_split_push(t: Seq<char>, c: char)
    ensures
        c == '_' ==> split_underscores(t.push(c)) == split_underscores(t).push(Seq::<char>::empty()),
        c != '_' ==> split_underscores(t.push(c)) == split_underscores(t).drop_last().push(
            split_underscores(t).last().push(c),
        ),
        split_underscores(t).len() >= 1,
    decreases t.len(),
{
    let p = t.push(c);
    assert(p.drop_last() =~= t);
    lemma_last_index_bounds(t, '_');
    if c == '_' {
        assert(p.subrange(0, t.len() as int) =~= t);
        assert(p.subrange(t.len() as int + 1, p.len() as int) =~= Seq::<char>::empty());
    } else {
        let k = last_index(t, '_');
        if k >= 0 {
            assert(p.subrange(0, k) =~= t.subrange(0, k));
            assert(p.subrange(k + 1, p.len() as int) =~= t.subrange(k + 1, t.len() as int).push(c));
        }
    }
}

/// Joins `parts[..n]` with underscores.
fn join_prefix(parts: &Vec<String>, n: usize) -> (r: String)
    requires
        n <= parts.len(),
    ensures
        r@ == join_underscores(texts(parts@).take(n as int)),
{
    let mut r = String::new();
    let mut i: usize = 0;
    while i < n
        invariant
            i <= n <= parts.len(),
            r@ == join_underscores(texts(parts@).take(i as int)),
        decreases n - i,
    {
        let ghost prev = texts(parts@).take(i as int);
        let ghost next = texts(parts@).take(i + 1);
        assert(next.drop_last() =~= prev);
        if i > 0 {
            push_char(&mut r, '_');
        } else {
            assert(prev =~= Seq::<Seq<char>>::empty());
        }
        r.append(parts[i].as_str());
        i = i + 1;
    }
    r
}

/// The Premiere project file name for a client folder name: the client name
/// without its trailing client type, followed by `.prproj`
/// (`DIGITAIN_EXHIBITOR` gives `DIGITAIN.prproj`).
pub fn client_project_filename(client_name: &str) -> (r: String)
    ensures
        r@ == project_file_name(client_name@),
{
    let cs = chars_of(client_name);
    let mut parts: Vec<String> = Vec::new();
    let mut start: usize = 0;
    let mut i: usize = 0;
    assert(client_name@.subrange(0, 0) =~= Seq::<char>::empty());
    while i < cs.len()
        invariant
            cs@ == client_name@,
            start <= i <= cs.len(),
            split_underscores(client_name@.subrange(0, i as int)).len() >= 1,
            split_underscores(client_name@.subrange(0, i as int)).last()
                == client_name@.subrange(start as int, i as int),
            texts(parts@) == nonempty_parts(split_underscores(client_name@.subrange(0, i as int)).drop_last()),
        decreases cs.len() - i,
    {
        let ghost t = client_name@.subrange(0, i as int);
        let ghost segs = split_underscores(t);
        assert(client_name@.subrange(0, i + 1) =~= t.push(cs@[i as int]));
        proof {
            lemma_split_push(t, cs@[i as int]);
        }
        if cs[i] == '_' {
            let ghost old_parts = texts(parts@);
            if i > start {
                let piece = string_from_range(&cs, start, i);
                parts.push(piece);
                assert(texts(parts@) =~= old_parts.push(segs.last()));
            } else {
                assert(segs.last() =~= Seq::<char>::empty());
            }
            assert(segs.push(Seq::<char>::empty()).drop_last() =~= segs);
            assert(segs =~= segs.drop_last().push(segs.last()));
            start = i + 1;
            assert(client_name@.subrange(start as int, i + 1) =~= Seq::<char>::empty());
        } else {
            assert(client_name@.subrange(start as int, i + 1) =~= client_name@.subrange(start as int, i as int).push(cs@[i as int]));
            assert(segs.drop_last().push(segs.last().push(cs@[i as int])).drop_last() =~= segs.drop_last());
        }
        i = i + 1;
    }
    let ghost all = split_underscores(client_name@);
    assert(client_name@.subrange(0, cs.len() as int) =~= client_name@);
    assert(all =~= all.drop_last().push(all.last()));
    if cs.len() > start {
        let piece = string_from_range(&cs, start, cs.len());
        let ghost old_parts = texts(parts@);
        parts.push(piece);
        assert(texts(parts@) =~= old_parts.push(all.last()));
    } else {
        assert(all.last() =~= Seq::<char>::empty());
    }
    assert(texts(parts@) == nonempty_parts(all));
    let n = parts.len();
    let stem = if n > 1 && is_client_type_name(parts[n - 1].as_str()) {
        assert(texts(parts@).take(n - 1) =~= texts(parts@).drop_last());
        join_prefix(&parts, n - 1)
    } else if n == 0 {
        client_name.to_owned()
    } else {
        assert(texts(parts@).take(n as int) =~= texts(parts@));
        join_prefix(&parts, n)
    };
    stem.concat(".prproj")
}

/// `last_index` is the position of the last occurrence.
proof fn lemma_last_index_at(s: Seq<char>, c: char, k: int)
    requires
        0 <= k < s.len(),
        s[k] == c,
        forall|i: int| k < i < s.len() ==> s[i] != c,
    ensures
        last_index(s, c) == k,
{
    lemma_last_index_bounds(s, c);
}

/// A name without underscores is a single piece.
proof fn lemma_split_none(n: Seq<char>)
    requires
        forall|i: int| 0 <= i < n.len() ==> n[i] != '_',
    ensures
        split_underscores(n) == seq![n],
{
    lemma_last_index_bounds(n, '_');
}

/// `n_t`, for `n` and `t` without underscores, is the pieces `n` and `t`.
proof fn lemma_split_two(n: Seq<char>, t: Seq<char>)
    requires
        forall|i: int| 0 <= i < n.len() ==> n[i] != '_',
        forall|i: int| 0 <= i < t.len() ==> t[i] != '_',
    ensures
        split_underscores(n + "_"@ + t) == seq![n, t],
{
    reveal_strlit("_");
    let s = n + "_"@ + t;
    let k = n.len() as int;
    assert(s[k] == '_');
    assert forall|i: int| k < i < s.len() implies s[i] != '_' by {
        assert(s[i] == t[i - k - 1]);
    }
    lemma_last_index_at(s, '_', k);
    assert(s.subrange(0, k) =~= n);
    assert(s.subrange(k + 1, s.len() as int) =~= t);
    lemma_split_none(n);
    assert(seq![n].push(t) =~= seq![n, t]);
}

/// The project of a client folder named `n_t`, for a non-empty name `n`
/// and a non-empty last piece `t` without underscores: `n.prproj` when `t`
/// is one of the client types EXHIBITOR, HUDDLE, PRODUCT, MARIYAMEETS and
/// SOCIAL, and `n_t.prproj` for any other last piece.
pub proof fn lemma_project_name_drops_client_type(n: Seq<char>, t: Seq<char>)
    requires
        n.len() > 0,
        t.len() > 0,
        forall|i: int| 0 <= i < n.len() ==> n[i] != '_',
        forall|i: int| 0 <= i < t.len() ==> t[i] != '_',
    ensures
        (t == "EXHIBITOR"@ || t == "HUDDLE"@ || t == "PRODUCT"@ || t == "MARIYAMEETS"@ || t == "SOCIAL"@)
            ==> project_file_name(n + "_"@ + t) == n + ".prproj"@,
        !(t == "EXHIBITOR"@ || t == "HUDDLE"@ || t == "PRODUCT"@ || t == "MARIYAMEETS"@ || t == "SOCIAL"@)
            ==> project_file_name(n + "_"@ + t) == n + "_"@ + t + ".prproj"@,
{
    reveal_strlit("_");
    lemma_split_two(n, t);
    let ps = seq![n, t];
    assert(ps.drop_last() =~= seq![n]);
    assert(seq![n].drop_last() =~= Seq::<Seq<char>>::empty());
    assert(seq![n].last() == n);
    assert(nonempty_parts(Seq::<Seq<char>>::empty()) == Seq::<Seq<char>>::empty());
    assert(Seq::<Seq<char>>::empty().push(n) =~= seq![n]);
    assert(nonempty_parts(seq![n]) =~= seq![n]);
    assert(nonempty_parts(ps) =~= seq![n, t]);
    assert(join_underscores(seq![n]) == n);
    assert(join_underscores(ps) =~= n + "_"@ + t);
}

/// Whether a name piece is one of the client types.
fn is_client_type_name(p: &str) -> (r: bool)
    ensures
        r == is_client_type(p@),
{
    text_eq(p, "EXHIBITOR") || text_eq(p, "HUDDLE") || text_eq(p, "PRODUCT") || text_eq(
        p,
        "MARIYAMEETS",
    ) || text_eq(p, "SOCIAL")
}

// ---------------------------------------------------------------------------
// Collision-free names
// ---------------------------------------------------------------------------

/// The names already given out in one sorting batch.
pub struct ReservedNames {
    names: Vec<String>,
}

impl ReservedNames {
    /// The set of reserved names.
    pub closed spec fn view(&self) -> Set<Seq<char>> {
        texts(self.names@).to_set()
    }

    /// No name reserved yet.
    pub fn new() -> (r: ReservedNames)
        ensures
            r.view() == Set::<Seq<char>>::empty(),
    {
        let r = ReservedNames { names: Vec::new() };
        assert(r.view() =~= Set::<Seq<char>>::empty());
        r
    }

    /// Whether `name` is reserved.
    pub fn contains(&self, name: &str) -> (r: bool)
        ensures
            r == self.view().contains(name@),
    {
        let mut i: usize = 0;
        while i < self.names.len()
            invariant
                i <= self.names.len(),
                forall|j: int| 0 <= j < i ==> (#[trigger] self.names@[j])@ != name@,
            decreases self.names.len() - i,
        {
            if text_eq(self.names[i].as_str(), name) {
                assert(texts(self.names@)[i as int] == name@);
                return true;
            }
            i = i + 1;
        }
        assert forall|j: int| 0 <= j < texts(self.names@).len() implies texts(self.names@)[j] != name@ by {
            assert(self.names@[j]@ != name@);
        }
        false
    }

    /// Reserves `name`; returns whether it was not reserved before.
    pub fn insert(&mut self, name: String) -> (r: bool)
        ensures
            final(self).view() == old(self).view().insert(name@),
            r == !old(self).view().contains(name@),
    {
        if self.contains(name.as_str()) {
            assert(self.view().insert(name@) =~= self.view());
            false
        } else {
            let ghost before = texts(self.names@);
            self.names.push(name);
            assert(texts(self.names@) =~= before.push(name@));
            assert(self.view() =~= before.to_set().insert(name@)) by {
                assert forall|x: Seq<char>| self.view().contains(x) <==> before.to_set().insert(name@).contains(x) by {
                    if x == name@ {
                        assert(texts(self.names@)[before.len() as int] == x);
                    } else if before.contains(x) {
                        let j = choose|j: int| 0 <= j < before.len() && before[j] == x;
                        assert(texts(self.names@)[j] == x);
                    } else if texts(self.names@).contains(x) {
                        let j = choose|j: int| 0 <= j < texts(self.names@).len() && texts(self.names@)[j] == x;
                        assert(before[j] == x);
                    }
                }
            }
            true
        }
    }
}

/// `{stem}__{n}.{ext}`, or `{stem}__{n}` when there is no extension.
pub open spec fn numbered_name(stem: Seq<char>, ext: Option<Seq<char>>, n: nat) -> Seq<char> {
    match ext {
        Some(e) => stem + "__"@ + decimal(n) + "."@ + e,
        None => stem + "__"@ + decimal(n),
    }
}

/// The name tried at attempt `attempt` (from zero) for a file called `name`:
/// the name itself, then the stem with `__2`, `__3`, ... before the extension.
pub open spec fn candidate_name(name: Seq<char>, attempt: nat) -> Seq<char> {
    if attempt == 0 {
        name
    } else {
        numbered_name(name_stem(name), name_extension(name), attempt + 1)
    }
}

/// A search for a name that is free in a destination folder: it proposes
/// candidates in turn and is told, for each, whether a file of that name is
/// already on disk.
pub struct NameSearch {
    name: String,
    stem: String,
    ext: Option<String>,
    attempt: u64,
    candidate: String,
}

impl NameSearch {
    /// The file name being placed.
    pub closed spec fn file_name(&self) -> Seq<char> {
        self.name@
    }

    /// How many candidates have been turned down.
    pub closed spec fn attempts(&self) -> nat {
        self.attempt as nat
    }

    /// The search's fields agree with its file name and attempt count.
    pub closed spec fn wf(&self) -> bool {
        &&& self.stem@ == name_stem(self.name@)
        &&& match self.ext {
            Some(e) => name_extension(self.name@) == Some(e@),
            None => name_extension(self.name@) is None,
        }
        &&& self.candidate@ == candidate_name(self.name@, self.attempt as nat)
    }

    /// Starts the search for a file called `file_name` (a single path
    /// component); the first candidate is the name itself.
    pub fn new(file_name: &str) -> (r: NameSearch)
        ensures
            r.wf(),
            r.file_name() == file_name@,
            r.attempts() == 0,
    {
        let (stem, ext) = split_file_name(file_name);
        NameSearch { name: file_name.to_owned(), stem, ext, attempt: 0, candidate: file_name.to_owned() }
    }

    /// The name currently proposed.
    pub fn candidate(&self) -> (r: &String)
        requires
            self.wf(),
        ensures
            r@ == candidate_name(self.file_name(), self.attempts()),
    {
        &self.candidate
    }
}

/// One step of the search for a collision-free destination name. When no
/// file of the current candidate's name is on disk in the destination folder
/// and the name is not reserved in this batch, it is reserved and returned;
/// otherwise the search moves on to the next candidate and `None` is
/// returned. The caller joins the returned name to the destination folder.
pub fn unique_destination_path(search: &mut NameSearch, on_disk: bool, reserved: &mut ReservedNames) -> (r: Option<String>)
    requires
        old(search).wf(),
        old(search).attempts() + 2 < u64::MAX,
    ensures
        final(search).wf(),
        final(search).file_name() == old(search).file_name(),
        final(reserved).view() == reserved_after(
            old(reserved).view(),
            seq![(candidate_name(old(search).file_name(), old(search).attempts()), on_disk)],
        ),
        given_out(old(reserved).view(), seq![(candidate_name(old(search).file_name(), old(search).attempts()), on_disk)])
            == match r {
            Some(n) => seq![n@],
            None => Seq::<Seq<char>>::empty(),
        },
        ({
            let cand = candidate_name(old(search).file_name(), old(search).attempts());
            if !on_disk && !old(reserved).view().contains(cand) {
                &&& r matches Some(n) && n@ == cand
                &&& final(reserved).view() == old(reserved).view().insert(cand)
                &&& final(search).attempts() == old(search).attempts()
            } else {
                &&& r is None
                &&& final(reserved).view() == old(reserved).view()
                &&& final(search).attempts() == old(search).attempts() + 1
            }
        }),
{
    let ghost cand = candidate_name(old(search).file_name(), old(search).attempts());
    let ghost steps = seq![(cand, on_disk)];
    proof {
        assert(steps.drop_last() =~= Seq::<(Seq<char>, bool)>::empty());
        assert(steps.last() == (cand, on_disk));
        assert(reserved_after(reserved.view(), steps.drop_last()) == reserved.view());
        assert(given_out(reserved.view(), steps.drop_last()) =~= Seq::<Seq<char>>::empty());
        if !on_disk && !reserved.view().contains(cand) {
            assert(given_out(reserved.view(), steps) =~= seq![cand]);
        }
    }
    if !on_disk && !reserved.contains(search.candidate.as_str()) {
        let chosen = search.candidate.clone();
        reserved.insert(search.candidate.clone());
        return Some(chosen);
    }
    let number = search.attempt + 2;
    let mut next = search.stem.clone();
    next.append("__");
    let digits = decimal_string(number);
    next.append(digits.as_str());
    match &search.ext {
        Some(e) => {
            next.append(".");
            next.append(e.as_str());
        },
        None => {},
    }
    search.attempt = search.attempt + 1;
    search.candidate = next;
    None
}

/// A file name with an extension is its stem, a dot and the extension.
proof fn lemma_name_parts(name: Seq<char>)
    requires
        has_extension(name),
    ensures
        name == name_stem(name) + "."@ + name_extension(name).unwrap(),
{
    reveal_strlit(".");
    lemma_last_index_bounds(name, '.');
    assert(name =~= name_stem(name) + "."@ + name_extension(name).unwrap());
}

/// The search never proposes the same name twice: the candidates for one
/// file name at two different attempts differ.
#[verifier::spinoff_prover]
pub proof fn lemma_candidates_distinct(name: Seq<char>, i: nat, j: nat)
    requires
        i != j,
    ensures
        candidate_name(name, i) != candidate_name(name, j),
{
    reveal_strlit("__");
    reveal_strlit(".");
    let stem = name_stem(name);
    let ext = name_extension(name);
    if i == 0 || j == 0 {
        let k: nat = if i == 0 { j } else { i };
        lemma_decimal_value(k + 1);
        if has_extension(name) {
            lemma_name_parts(name);
        }
        assert(candidate_name(name, k).len() > name.len());
    } else {
        let a = decimal(i + 1);
        let b = decimal(j + 1);
        let ci = candidate_name(name, i);
        let cj = candidate_name(name, j);
        if a.len() == b.len() && ci == cj {
            let from: int = stem.len() as int + 2;
            assert(ci.subrange(from, from + a.len()) =~= a);
            assert(cj.subrange(from, from + b.len()) =~= b);
            lemma_decimal_injective(i + 1, j + 1);
        }
    }
}

/// The reserved names after a run of search steps, each step a candidate
/// and whether a file of that name is on disk, starting from `reserved`:
/// a step reserves its candidate when it is neither on disk nor reserved.
pub open spec fn reserved_after(reserved: Set<Seq<char>>, steps: Seq<(Seq<char>, bool)>) -> Set<Seq<char>>
    decreases steps.len(),
{
    if steps.len() == 0 {
        reserved
    } else {
        let before = reserved_after(reserved, steps.drop_last());
        let (cand, on_disk) = steps.last();
        if !on_disk && !before.contains(cand) {
            before.insert(cand)
        } else {
            before
        }
    }
}

/// The names given out by a run of search steps, in order.
pub open spec fn given_out(reserved: Set<Seq<char>>, steps: Seq<(Seq<char>, bool)>) -> Seq<Seq<char>>
    decreases steps.len(),
{
    if steps.len() == 0 {
        Seq::empty()
    } else {
        let prev = given_out(reserved, steps.drop_last());
        let (cand, on_disk) = steps.last();
        if !on_disk && !reserved_after(reserved, steps.drop_last()).contains(cand) {
            prev.push(cand)
        } else {
            prev
        }
    }
}

/// Over a run of search steps the reserved names only grow: they are the
/// names reserved at the start and those given out.
pub proof fn lemma_reserved_after_contents(reserved: Set<Seq<char>>, steps: Seq<(Seq<char>, bool)>)
    ensures
        forall|x: Seq<char>|
            reserved_after(reserved, steps).contains(x) <==> (reserved.contains(x) || given_out(reserved, steps).contains(x)),
    decreases steps.len(),
{
    if steps.len() > 0 {
        lemma_reserved_after_contents(reserved, steps.drop_last());
        let prev = given_out(reserved, steps.drop_last());
        let (cand, on_disk) = steps.last();
        assert forall|x: Seq<char>|
            reserved_after(reserved, steps).contains(x) <==> (reserved.contains(x) || given_out(reserved, steps).contains(x)) by {
            assert(reserved_after(reserved, steps.drop_last()).contains(x) <==> (reserved.contains(x) || prev.contains(x)));
            if !on_disk && !reserved_after(reserved, steps.drop_last()).contains(cand) {
                if prev.push(cand).contains(x) && x != cand {
                    let i = choose|i: int| 0 <= i < prev.push(cand).len() && prev.push(cand)[i] == x;
                    assert(prev[i] == x);
                }
                if prev.contains(x) {
                    let i = choose|i: int| 0 <= i < prev.len() && prev[i] == x;
                    assert(prev.push(cand)[i] == x);
                }
                if x == cand {
                    assert(prev.push(cand)[prev.len() as int] == x);
                }
            }
        }
    }
}

/// Collision-safe naming: the names given out in one batch are all
/// different, none of them was reserved when the batch began, and each was
/// given out at a step where no file of that name was on disk.
pub proof fn lemma_given_out_distinct(reserved: Set<Seq<char>>, steps: Seq<(Seq<char>, bool)>)
    ensures
        given_out(reserved, steps).no_duplicates(),
        forall|i: int| 0 <= i < given_out(reserved, steps).len() ==> !reserved.contains(#[trigger] given_out(reserved, steps)[i]),
        forall|i: int|
            0 <= i < given_out(reserved, steps).len() ==> exists|k: int|
                0 <= k < steps.len() && (#[trigger] steps[k]).0 == #[trigger] given_out(reserved, steps)[i] && !steps[k].1,
    decreases steps.len(),
{
    if steps.len() > 0 {
        lemma_given_out_distinct(reserved, steps.drop_last());
        let prefix = steps.drop_last();
        let g = given_out(reserved, steps);
        let gp = given_out(reserved, prefix);
        assert forall|i: int| 0 <= i < g.len() implies exists|k: int|
            0 <= k < steps.len() && (#[trigger] steps[k]).0 == #[trigger] g[i] && !steps[k].1 by {
            if i < gp.len() {
                assert(g[i] == gp[i]);
                let k = choose|k: int| 0 <= k < prefix.len() && (#[trigger] prefix[k]).0 == #[trigger] gp[i] && !prefix[k].1;
                assert(steps[k] == prefix[k]);
            } else {
                assert(steps[steps.len() - 1] == steps.last());
            }
        }
        lemma_reserved_after_contents(reserved, steps.drop_last());
        let prev = given_out(reserved, steps.drop_last());
        let (cand, on_disk) = steps.last();
        if !on_disk && !reserved_after(reserved, steps.drop_last()).contains(cand) {
            let next = prev.push(cand);
            assert forall|i: int, j: int| 0 <= i < j < next.len() implies next[i] != next[j] by {
                if j == prev.len() {
                    assert(prev.contains(prev[i]));
                }
            }
            assert forall|i: int| 0 <= i < next.len() implies !reserved.contains(#[trigger] next[i]) by {
                if i < prev.len() {
                    assert(next[i] == prev[i]);
                }
            }
        }
    }
}

/// `unique_destination_path` is one step of this model: the reserved set it
/// leaves is the model's, after the step of its candidate.
pub proof fn lemma_single_step(reserved: Set<Seq<char>>, cand: Seq<char>, on_disk: bool)
    ensures
        reserved_after(reserved, seq![(cand, on_disk)]) == if !on_disk && !reserved.contains(cand) {
            reserved.insert(cand)
        } else {
            reserved
        },
{
    let steps = seq![(cand, on_disk)];
    assert(steps.drop_last() =~= Seq::<(Seq<char>, bool)>::empty());
    assert(reserved_after(reserved, steps.drop_last()) == reserved);
    assert(steps.last() == (cand, on_disk));
}

/// The first `count` candidates for `name`.
pub open spec fn candidates(name: Seq<char>, count: nat) -> Seq<Seq<char>> {
    Seq::new(count, |k: int| candidate_name(name, k as nat))
}

/// The search ends: of the first `|reserved| + |on_disk| + 1` candidates
/// for a name, one is neither reserved nor the name of a file on disk, so a
/// search over a folder that does not change returns within that many steps.
pub proof fn lemma_search_ends(name: Seq<char>, reserved: Set<Seq<char>>, on_disk: Set<Seq<char>>)
    requires
        reserved.finite(),
        on_disk.finite(),
    ensures
        exists|k: nat|
            k <= reserved.len() + on_disk.len() && !reserved.contains(#[trigger] candidate_name(name, k))
                && !on_disk.contains(candidate_name(name, k)),
{
    let n: nat = reserved.len() + on_disk.len();
    let c = candidates(name, n + 1);
    if forall|k: nat| k <= n ==> (reserved.contains(#[trigger] candidate_name(name, k)) || on_disk.contains(candidate_name(name, k))) {
        assert(c.no_duplicates()) by {
            assert forall|i: int, j: int| 0 <= i < c.len() && 0 <= j < c.len() && i != j implies c[i] != c[j] by {
                lemma_candidates_distinct(name, i as nat, j as nat);
            }
        }
        c.unique_seq_to_set();
        let u = reserved.union(on_disk);
        assert(c.to_set().subset_of(u)) by {
            assert forall|x: Seq<char>| c.to_set().contains(x) implies u.contains(x) by {
                let i = choose|i: int| 0 <= i < c.len() && c[i] == x;
                assert(c[i] == candidate_name(name, i as nat));
                assert(reserved.contains(candidate_name(name, i as nat)) || on_disk.contains(candidate_name(name, i as nat)));
            }
        }
        vstd::set_lib::lemma_len_union(reserved, on_disk);
        vstd::set_lib::lemma_len_subset(c.to_set(), u);
        assert(false);
    }
}

/// Running one more step extends a run: the reserved names and the names
/// given out after `steps` and then `step` are those of the run `steps`
/// followed by those of the single step. So a run of calls of
/// `unique_destination_path` with one reserved set is a run of the model,
/// and `lemma_given_out_distinct` applies to it.
pub proof fn lemma_run_extends(reserved: Set<Seq<char>>, steps: Seq<(Seq<char>, bool)>, step: (Seq<char>, bool))
    ensures
        reserved_after(reserved, steps.push(step)) == reserved_after(reserved_after(reserved, steps), seq![step]),
        given_out(reserved, steps.push(step)) == given_out(reserved, steps) + given_out(
            reserved_after(reserved, steps),
            seq![step],
        ),
{
    let one = seq![step];
    assert(steps.push(step).drop_last() =~= steps);
    assert(one.drop_last() =~= Seq::<(Seq<char>, bool)>::empty());
    assert(reserved_after(reserved_after(reserved, steps), one.drop_last()) == reserved_after(reserved, steps));
    assert(given_out(reserved_after(reserved, steps), one.drop_last()) =~= Seq::<Seq<char>>::empty());
    let (cand, on_disk) = step;
    if !on_disk && !reserved_after(reserved, steps).contains(cand) {
        assert(given_out(reserved, steps.push(step)) =~= given_out(reserved, steps) + seq![cand]);
    } else {
        assert(given_out(reserved, steps.push(step)) =~= given_out(reserved, steps) + Seq::<Seq<char>>::empty());
    }
}

} // verus!
