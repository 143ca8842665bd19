use vstd::prelude::*;

verus! {

/// `p` occurs in `s` starting at index `i`.
pub open spec fn matches_at(s: Seq<char>, p: Seq<char>, i: int) -> bool {
    0 <= i && i + p.len() <= s.len() && s.subrange(i, i + p.len()) == p
}

/// `i` is the index of the first occurrence of `p` in `s`.
pub open spec fn is_first_match(s: Seq<char>, p: Seq<char>, i: int) -> bool {
    matches_at(s, p, i) && forall|j: int| 0 <= j < i ==> !matches_at(s, p, j)
}

/// Tests whether `p` occurs in `s` at index `i`.
pub fn matches_at_exec(s: &[char], p: &[char], i: usize) -> (r: bool)
    ensures
        r == matches_at(s@, p@, i as int),
{
    if p.len() > s.len() || i > s.len() - p.len() {
        return false;
    }
    let mut k: usize = 0;
    while k < p.len()
        invariant
            k <= p.len(),
            i + p.len() <= s.len(),
            forall|m: int| 0 <= m < k ==> s@[i + m] == p@[m],
        decreases p.len() - k,
    {
        if s[i + k] != p[k] {
            assert(s@.subrange(i as int, i + p.len())[k as int] != p@[k as int]);
            return false;
        }
        k = k + 1;
    }
    assert(s@.subrange(i as int, i + p.len()) =~= p@);
    true
}

/// The index of the first occurrence of `p` in `s`, if there is one.
pub open spec fn find(s: Seq<char>, p: Seq<char>) -> Option<int> {
    if exists|i: int| is_first_match(s, p, i) {
        Some(choose|i: int| is_first_match(s, p, i))
    } else {
        None
    }
}

/// Splits `s` around the first occurrence of `p`.
pub open spec fn split_once(s: Seq<char>, p: Seq<char>) -> Option<(Seq<char>, Seq<char>)> {
    match find(s, p) {
        Some(i) => Some((s.subrange(0, i), s.subrange(i + p.len(), s.len() as int))),
        None => None,
    }
}

/// All the pieces of `s` between occurrences of the non-empty separator `p`.
pub open spec fn split_all(s: Seq<char>, p: Seq<char>) -> Seq<Seq<char>>
    decreases s.len(),
{
    if p.len() > 0 && exists|i: int| is_first_match(s, p, i) {
        let i = choose|i: int| is_first_match(s, p, i);
        seq![s.subrange(0, i)] + split_all(s.subrange(i + p.len(), s.len() as int), p)
    } else {
        seq![s]
    }
}

/// A first match is unique.
pub proof fn lemma_first_match_unique(s: Seq<char>, p: Seq<char>, i: int, j: int)
    requires
        is_first_match(s, p, i),
        is_first_match(s, p, j),
    ensures
        i == j,
{
}

/// `find` returns the first match where there is one.
pub proof fn lemma_find_first(s: Seq<char>, p: Seq<char>, i: int)
    requires
        is_first_match(s, p, i),
    ensures
        find(s, p) == Some(i),
{
    let k = choose|k: int| is_first_match(s, p, k);
    lemma_first_match_unique(s, p, i, k);
}

/// The index of the first occurrence of `p` in `s` at or after `from`.
pub fn find_from(s: &[char], p: &[char], from: usize) -> (r: Option<usize>)
    requires
        from <= s@.len(),
    ensures
        match r {
            Some(i) => from <= i && i + p@.len() <= s@.len() && find(
                s@.subrange(from as int, s@.len() as int),
                p@,
            ) == Some(i - from),
            None => find(s@.subrange(from as int, s@.len() as int), p@) is None,
        },
{
    let ghost t = s@.subrange(from as int, s@.len() as int);
    let mut i: usize = from;
    while i < s.len()
        invariant
            from <= i <= s@.len(),
            t == s@.subrange(from as int, s@.len() as int),
            forall|j: int| 0 <= j < i - from ==> !matches_at(t, p@, j),
        decreases s.len() - i,
    {
        let hit = matches_at_exec(s, p, i);
        assert(matches_at(t, p@, i - from) == matches_at(s@, p@, i as int)) by {
            if i + p@.len() <= s@.len() {
                assert(t.subrange(i - from, i - from + p@.len()) =~= s@.subrange(
                    i as int,
                    i + p@.len(),
                ));
            }
        }
        if hit {
            proof {
                lemma_find_first(t, p@, i - from);
            }
            return Some(i);
        }
        i = i + 1;
    }
    if p.len() == 0 {
        assert(matches_at(t, p@, t.len() as int)) by {
            assert(t.subrange(t.len() as int, t.len() as int) =~= p@);
        }
        proof {
            lemma_find_first(t, p@, t.len() as int);
        }
        return Some(s.len());
    }
    assert(!exists|j: int| is_first_match(t, p@, j));
    None
}

/// The characters of `s` from `a` up to `b`.
pub fn slice_of(s: &[char], a: usize, b: usize) -> (r: Vec<char>)
    requires
        a <= b <= s@.len(),
    ensures
        r@ == s@.subrange(a as int, b as int),
{
    let mut r: Vec<char> = Vec::new();
    let mut i: usize = a;
    while i < b
        invariant
            a <= i <= b <= s@.len(),
            r@ == s@.subrange(a as int, i as int),
        decreases b - i,
    {
        r.push(s[i]);
        i = i + 1;
        assert(r@ =~= s@.subrange(a as int, i as int));
    }
    r
}

/// The views of a sequence of character vectors.
pub open spec fn views(v: Seq<Vec<char>>) -> Seq<Seq<char>> {
    v.map_values(|x: Vec<char>| x@)
}

/// Splits `s` around every occurrence of the non-empty separator `p`.
pub fn split_all_exec(s: &[char], p: &[char]) -> (r: Vec<Vec<char>>)
    requires
        p@.len() > 0,
    ensures
        views(r@) == split_all(s@, p@),
{
    let mut pieces: Vec<Vec<char>> = Vec::new();
    let mut start: usize = 0;
    let n: usize = s.len();
    assert(s@.subrange(0, s@.len() as int) =~= s@);
    loop
        invariant
            n == s@.len(),
            start <= s@.len(),
            p@.len() > 0,
            split_all(s@, p@) == views(pieces@) + split_all(
                s@.subrange(start as int, s@.len() as int),
                p@,
            ),
        decreases s@.len() - start,
    {
        let ghost t = s@.subrange(start as int, s@.len() as int);
        match find_from(s, p, start) {
            Some(i) => {
                let piece = slice_of(s, start, i);
                proof {
                    let k = i - start;
                    assert(is_first_match(t, p@, k));
                    assert(i + p@.len() <= s@.len());
                    assert(t.subrange(0, k) =~= piece@);
                    assert(t.subrange(k + p@.len(), t.len() as int) =~= s@.subrange(
                        i + p@.len(),
                        s@.len() as int,
                    ));
                    assert(views(pieces@.push(piece)) =~= views(pieces@).push(piece@));
                }
                pieces.push(piece);
                start = i + p.len();
            },
            None => {
                let piece = slice_of(s, start, s.len());
                proof {
                    assert(t =~= piece@);
                    assert(views(pieces@.push(piece)) =~= views(pieces@) + seq![piece@]);
                }
                pieces.push(piece);
                return pieces;
            },
        }
    }
}

/// Splitting always yields at least one piece.
pub proof fn lemma_split_all_nonempty(s: Seq<char>, p: Seq<char>)
    ensures
        split_all(s, p).len() >= 1,
{
}

/// Tests whether two character sequences are equal.
pub fn same_chars(a: &[char], b: &[char]) -> (r: bool)
    ensures
        r == (a@ == b@),
{
    if a.len() != b.len() {
        return false;
    }
    let mut i: usize = 0;
    while i < a.len()
        invariant
            i <= a@.len(),
            a@.len() == b@.len(),
            forall|k: int| 0 <= k < i ==> a@[k] == b@[k],
        decreases a@.len() - i,
    {
        if a[i] != b[i] {
            return false;
        }
        i = i + 1;
    }
    assert(a@ =~= b@);
    true
}

/// A match at `k` means that there is a first match, at `k` or before it.
pub proof fn lemma_first_match_exists(s: Seq<char>, p: Seq<char>, k: int)
    requires
        matches_at(s, p, k),
    ensures
        exists|i: int| i <= k && is_first_match(s, p, i),
    decreases k,
{
    if forall|j: int| 0 <= j < k ==> !matches_at(s, p, j) {
        assert(is_first_match(s, p, k));
    } else {
        let j = choose|j: int| 0 <= j < k && matches_at(s, p, j);
        lemma_first_match_exists(s, p, j);
    }
}

/// A text without the first character of `p` holds no match of `p`.
pub proof fn lemma_no_match(s: Seq<char>, p: Seq<char>)
    requires
        p.len() > 0,
        forall|k: int| 0 <= k < s.len() ==> s[k] != p[0],
    ensures
        forall|j: int| !matches_at(s, p, j),
{
    assert forall|j: int| !matches_at(s, p, j) by {
        if matches_at(s, p, j) {
            assert(s.subrange(j, j + p.len())[0] == s[j]);
        }
    }
}

/// Where `a` holds no first character of `p`, the first match of `p` in
/// `a + p + b` is right after `a`.
pub proof fn lemma_first_after(a: Seq<char>, p: Seq<char>, b: Seq<char>)
    requires
        p.len() > 0,
        forall|k: int| 0 <= k < a.len() ==> a[k] != p[0],
    ensures
        is_first_match(a + p + b, p, a.len() as int),
{
    let s = a + p + b;
    assert(s.subrange(a.len() as int, (a.len() + p.len()) as int) =~= p);
    assert forall|j: int| 0 <= j < a.len() implies !matches_at(s, p, j) by {
        if matches_at(s, p, j) {
            assert(s.subrange(j, j + p.len())[0] == s[j]);
        }
    }
}

/// Splitting cuts at the first match.
pub proof fn lemma_split_at(s: Seq<char>, p: Seq<char>, i: int)
    requires
        p.len() > 0,
        is_first_match(s, p, i),
    ensures
        split_all(s, p) == seq![s.subrange(0, i)] + split_all(
            s.subrange(i + p.len(), s.len() as int),
            p,
        ),
{
    let k = choose|k: int| is_first_match(s, p, k);
    lemma_first_match_unique(s, p, i, k);
}

/// Without a match, splitting gives the whole text.
pub proof fn lemma_split_none(s: Seq<char>, p: Seq<char>)
    requires
        forall|j: int| !matches_at(s, p, j),
    ensures
        split_all(s, p) == seq![s],
        find(s, p) is None,
{
}

/// Where `a` holds no first character of `p`, splitting `a + p + b` gives
/// `a` and then the pieces of `b`.
pub proof fn lemma_split_after(a: Seq<char>, p: Seq<char>, b: Seq<char>)
    requires
        p.len() > 0,
        forall|k: int| 0 <= k < a.len() ==> a[k] != p[0],
    ensures
        split_all(a + p + b, p) == seq![a] + split_all(b, p),
        split_once(a + p + b, p) == Some((a, b)),
{
    let s = a + p + b;
    lemma_first_after(a, p, b);
    lemma_split_at(s, p, a.len() as int);
    lemma_find_first(s, p, a.len() as int);
    assert(s.subrange(0, a.len() as int) =~= a);
    assert(s.subrange((a.len() + p.len()) as int, s.len() as int) =~= b);
}

/// Each separator in a text adds a piece: `a + [c] + b` splits into more
/// pieces than `b` does.
pub proof fn lemma_split_count(a: Seq<char>, c: char, b: Seq<char>)
    ensures
        split_all(a + seq![c] + b, seq![c]).len() >= 1 + split_all(b, seq![c]).len(),
    decreases a.len(),
{
    let p = seq![c];
    let s = a + p + b;
    assert(s.subrange(a.len() as int, a.len() + 1int) =~= p);
    lemma_first_match_exists(s, p, a.len() as int);
    let i = choose|i: int| i <= a.len() && is_first_match(s, p, i);
    lemma_split_at(s, p, i);
    if i < a.len() {
        let a2 = a.subrange(i + 1, a.len() as int);
        assert(s.subrange(i + 1, s.len() as int) =~= a2 + p + b);
        lemma_split_count(a2, c, b);
    } else {
        assert(s.subrange(i + 1, s.len() as int) =~= b);
    }
}

} // verus!
