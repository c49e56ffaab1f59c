//! Journal files: which files of a directory are journals, and the order in
//! which they are scanned.

use vstd::prelude::*;

verus! {

#[verifier::external_type_specification]
#[verifier::external_body]
pub struct ExPathBuf(std::path::PathBuf);

/// `PathBuf::clone` gives a path equal to the one it copies.
pub assume_specification[ <std::path::PathBuf as Clone>::clone ](p: &std::path::PathBuf) -> (res:
    std::path::PathBuf)
    ensures
        res == *p,
;

/// A file found in the journals directory: its path and the bytes of its
/// file name (`None` where the path has no file name).
#[derive(Debug, Clone)]
pub struct JournalFile {
    pub name: Option<Vec<u8>>,
    pub path: std::path::PathBuf,
}

/// The bytes of a file name, where there is one.
pub open spec fn name_bytes(name: Option<Vec<u8>>) -> Option<Seq<u8>> {
    match name {
        Some(v) => Some(v@),
        None => None,
    }
}

/// The byte `.`.
pub open spec fn dot() -> u8 {
    46u8
}

/// Whether `i` is the position of the last `.` of `name`.
pub open spec fn is_last_dot(name: Seq<u8>, i: int) -> bool {
    &&& 0 <= i < name.len()
    &&& name[i] == dot()
    &&& forall|j: int| i < j < name.len() ==> name[j] != dot()
}

/// The extension of a file name, as `Path::extension` defines it: the part
/// after the last `.`, where that `.` is not the first byte of the name.
pub open spec fn extension_of(name: Seq<u8>) -> Option<Seq<u8>> {
    if exists|i: int| 0 < i && #[trigger] is_last_dot(name, i) {
        let i = choose|i: int| 0 < i && #[trigger] is_last_dot(name, i);
        Some(name.skip(i + 1))
    } else {
        None
    }
}

/// The extension of journal files.
pub open spec fn log_extension() -> Seq<u8> {
    seq![108u8, 111u8, 103u8]
}

/// Whether a file name has the extension `log`.
pub fn has_log_extension(name: &[u8]) -> (res: bool)
    ensures
        res == (extension_of(name@) == Some(log_extension())),
{
    let n = name.len();
    let res = n >= 5 && name[n - 4] == 46u8 && name[n - 3] == 108u8 && name[n - 2] == 111u8
        && name[n - 1] == 103u8;
    proof {
        let s = name@;
        if res {
            assert(is_last_dot(s, n - 4));
            let i = choose|i: int| 0 < i && #[trigger] is_last_dot(s, i);
            assert(i == n - 4);
            assert(s.skip(i + 1) =~= log_extension());
        } else if exists|i: int| 0 < i && #[trigger] is_last_dot(s, i) {
            let i = choose|i: int| 0 < i && #[trigger] is_last_dot(s, i);
            if s.skip(i + 1) == log_extension() {
                assert(s.skip(i + 1).len() == 3);
                assert(s.skip(i + 1)[0] == s[i + 1]);
                assert(s.skip(i + 1)[1] == s[i + 2]);
                assert(s.skip(i + 1)[2] == s[i + 3]);
                assert(false);
            }
        }
    }
    res
}

/// Whether a file is a journal: its name has the extension `log`.
pub open spec fn is_journal(f: JournalFile) -> bool {
    match name_bytes(f.name) {
        Some(n) => extension_of(n) == Some(log_extension()),
        None => false,
    }
}

/// A file is a journal exactly when its name ends in `.log` after at least
/// one byte, however many other dots the name holds.
pub proof fn lemma_journal_names(f: JournalFile)
    ensures
        is_journal(f) <==> (f.name matches Some(v) && v@.len() >= 5 && v@[v@.len() - 4] == 46u8
            && v@[v@.len() - 3] == 108u8 && v@[v@.len() - 2] == 111u8 && v@[v@.len() - 1] == 103u8),
{
    if let Some(v) = f.name {
        let s = v@;
        let n = s.len();
        let ends = n >= 5 && s[n - 4] == 46u8 && s[n - 3] == 108u8 && s[n - 2] == 111u8 && s[n - 1]
            == 103u8;
        if ends {
            assert(is_last_dot(s, n - 4));
            let i = choose|i: int| 0 < i && #[trigger] is_last_dot(s, i);
            assert(i == n - 4);
            assert(s.skip(i + 1) =~= log_extension());
        } else if exists|i: int| 0 < i && #[trigger] is_last_dot(s, i) {
            let i = choose|i: int| 0 < i && #[trigger] is_last_dot(s, i);
            if s.skip(i + 1) == log_extension() {
                assert(s.skip(i + 1).len() == 3);
                assert(s.skip(i + 1)[0] == s[i + 1]);
                assert(s.skip(i + 1)[1] == s[i + 2]);
                assert(s.skip(i + 1)[2] == s[i + 3]);
                assert(false);
            }
        }
    }
}

/// The journals selected are exactly the files whose names end in `.log`
/// after at least one byte, in the order the files came.
pub proof fn lemma_selected_journals(files: Seq<JournalFile>, f: JournalFile)
    ensures
        files.filter(|g: JournalFile| is_journal(g)).contains(f) <==> files.contains(f) && (
        f.name matches Some(v) && v@.len() >= 5 && v@[v@.len() - 4] == 46u8 && v@[v@.len() - 3]
            == 108u8 && v@[v@.len() - 2] == 111u8 && v@[v@.len() - 1] == 103u8),
{
    lemma_journal_names(f);
    let p = |g: JournalFile| is_journal(g);
    if files.filter(p).contains(f) {
        files.lemma_filter_contains_rev(p, f);
        let k = choose|k: int| 0 <= k < files.filter(p).len() && files.filter(p)[k] == f;
        files.lemma_filter_pred(p, k);
    }
    if files.contains(f) && is_journal(f) {
        let k = choose|k: int| 0 <= k < files.len() && files[k] == f;
        files.lemma_filter_contains(p, k);
    }
}

/// The journals among `files`, in their order.
pub fn select_journals(files: Vec<JournalFile>) -> (journals: Vec<JournalFile>)
    ensures
        journals@ == files@.filter(|f: JournalFile| is_journal(f)),
{
    let mut journals: Vec<JournalFile> = Vec::new();
    let ghost all = files@;
    for f in it: files.into_iter()
        invariant
            it.seq() == all,
            journals@ == all.take(it.index()).filter(|f: JournalFile| is_journal(f)),
    {
        let ghost taken = it.index();
        proof {
            assert(f == all[taken]);
            assert(all.take(taken + 1).drop_last() =~= all.take(taken));
        }
        let keep = match &f.name {
            Some(name) => has_log_extension(name.as_slice()),
            None => false,
        };
        proof {
            assert(keep == is_journal(f));
        }
        if keep {
            journals.push(f);
        }
        proof {
            reveal_with_fuel(Seq::<_>::filter, 1);
            assert(journals@ =~= all.take(taken + 1).filter(|f: JournalFile| is_journal(f)));
        }
    }
    assert(all.take(all.len() as int) =~= all);
    journals
}

/// The order of `[u8]`: lexicographic, with a proper prefix first.
pub open spec fn bytes_less(a: Seq<u8>, b: Seq<u8>) -> bool
    decreases a.len(),
{
    if a.len() == 0 {
        b.len() > 0
    } else if b.len() == 0 {
        false
    } else if a[0] != b[0] {
        a[0] < b[0]
    } else {
        bytes_less(a.drop_first(), b.drop_first())
    }
}

/// The order of optional file names: no name first, then names by their bytes.
pub open spec fn name_less(a: Option<Seq<u8>>, b: Option<Seq<u8>>) -> bool {
    match (a, b) {
        (None, Some(_)) => true,
        (Some(x), Some(y)) => bytes_less(x, y),
        _ => false,
    }
}

/// No byte string comes before itself.
pub proof fn lemma_bytes_less_irreflexive(a: Seq<u8>)
    ensures
        !bytes_less(a, a),
    decreases a.len(),
{
    if a.len() > 0 {
        lemma_bytes_less_irreflexive(a.drop_first());
    }
}

/// The order of byte strings is transitive.
pub proof fn lemma_bytes_less_transitive(a: Seq<u8>, b: Seq<u8>, c: Seq<u8>)
    requires
        bytes_less(a, b),
        bytes_less(b, c),
    ensures
        bytes_less(a, c),
    decreases a.len(),
{
    if a.len() > 0 && b.len() > 0 && c.len() > 0 && a[0] == b[0] && b[0] == c[0] {
        lemma_bytes_less_transitive(a.drop_first(), b.drop_first(), c.drop_first());
    }
}

/// Of two different byte strings, one comes before the other.
pub proof fn lemma_bytes_less_total(a: Seq<u8>, b: Seq<u8>)
    requires
        a != b,
    ensures
        bytes_less(a, b) || bytes_less(b, a),
    decreases a.len(),
{
    if a.len() > 0 && b.len() > 0 && a[0] == b[0] {
        if a.drop_first() == b.drop_first() {
            assert(a =~= seq![a[0]] + a.drop_first());
            assert(b =~= seq![b[0]] + b.drop_first());
        }
        lemma_bytes_less_total(a.drop_first(), b.drop_first());
    } else if a.len() == 0 && b.len() == 0 {
        assert(a =~= b);
    }
}

/// The order of optional names is a strict total order.
pub proof fn lemma_name_less_order(a: Option<Seq<u8>>, b: Option<Seq<u8>>, c: Option<Seq<u8>>)
    ensures
        !name_less(a, a),
        name_less(a, b) && name_less(b, c) ==> name_less(a, c),
        a != b ==> name_less(a, b) || name_less(b, a),
{
    if let Some(x) = a {
        lemma_bytes_less_irreflexive(x);
        if let (Some(y), Some(z)) = (b, c) {
            if bytes_less(x, y) && bytes_less(y, z) {
                lemma_bytes_less_transitive(x, y, z);
            }
        }
        if let Some(y) = b {
            if x != y {
                lemma_bytes_less_total(x, y);
            }
        }
    }
}

/// Skipping a common prefix keeps the order of two byte strings.
proof fn lemma_bytes_less_skip(a: Seq<u8>, b: Seq<u8>, i: int)
    requires
        0 <= i <= a.len(),
        i <= b.len(),
        a.take(i) == b.take(i),
    ensures
        bytes_less(a, b) == bytes_less(a.skip(i), b.skip(i)),
    decreases i,
{
    if i > 0 {
        assert(a[0] == a.take(i)[0]);
        assert(b[0] == b.take(i)[0]);
        assert(a.drop_first().take(i - 1) =~= a.take(i).drop_first());
        assert(b.drop_first().take(i - 1) =~= b.take(i).drop_first());
        lemma_bytes_less_skip(a.drop_first(), b.drop_first(), i - 1);
        assert(a.drop_first().skip(i - 1) =~= a.skip(i));
        assert(b.drop_first().skip(i - 1) =~= b.skip(i));
    } else {
        assert(a.skip(0) =~= a);
        assert(b.skip(0) =~= b);
    }
}

/// Whether the name `a` comes before the name `b`.
fn name_is_less(a: &Option<Vec<u8>>, b: &Option<Vec<u8>>) -> (res: bool)
    ensures
        res == name_less(name_bytes(*a), name_bytes(*b)),
{
    match (a, b) {
        (None, Some(_)) => true,
        (Some(x), Some(y)) => {
            let n = x.len();
            let m = y.len();
            let mut i: usize = 0;
            while i < n && i < m && x[i] == y[i]
                invariant
                    0 <= i <= n,
                    i <= m,
                    n == x@.len(),
                    m == y@.len(),
                    x@.take(i as int) == y@.take(i as int),
                decreases n - i,
            {
                proof {
                    assert(x@.take(i + 1) =~= x@.take(i as int).push(x@[i as int]));
                    assert(y@.take(i + 1) =~= y@.take(i as int).push(y@[i as int]));
                }
                i = i + 1;
            }
            proof {
                lemma_bytes_less_skip(x@, y@, i as int);
                let xs = x@.skip(i as int);
                let ys = y@.skip(i as int);
                if i < n && i < m {
                    assert(xs[0] == x@[i as int]);
                    assert(ys[0] == y@[i as int]);
                }
            }
            if i < n && i < m {
                x[i] < y[i]
            } else {
                i == n && i < m
            }
        },
        _ => false,
    }
}

/// Whether `p` is a permutation of the positions of a list of length `n`.
pub open spec fn is_permutation(p: Seq<int>, n: int) -> bool {
    &&& p.len() == n
    &&& forall|i: int| 0 <= i < n ==> 0 <= #[trigger] p[i] < n
    &&& forall|i: int, j: int| 0 <= i < j < n ==> p[i] != p[j]
}

/// The optional name of a journal file, as bytes.
pub open spec fn file_key(f: JournalFile) -> Option<Seq<u8>> {
    name_bytes(f.name)
}

/// Whether `sorted` holds the files of `files`, moved as `p` says
/// (`sorted[i]` is `files[p[i]]`), by decreasing name, files of equal names in
/// the order they had.
pub open spec fn is_sorted_by_name_desc(files: Seq<JournalFile>, sorted: Seq<JournalFile>, p: Seq<int>) -> bool {
    &&& sorted.len() == files.len()
    &&& is_permutation(p, files.len() as int)
    &&& forall|i: int| 0 <= i < sorted.len() ==> #[trigger] sorted[i] == files[p[i]]
    &&& forall|i: int, j: int|
        0 <= i < j < sorted.len() ==> !name_less(file_key(sorted[i]), file_key(sorted[j]))
    &&& forall|i: int, j: int|
        0 <= i < j < sorted.len() && file_key(sorted[i]) == file_key(sorted[j]) ==> p[i] < p[j]
}

/// Whether `sorted` is `files` ordered by decreasing name, stably.
pub open spec fn sorted_by_name_desc(files: Seq<JournalFile>, sorted: Seq<JournalFile>) -> bool {
    exists|p: Seq<int>| is_sorted_by_name_desc(files, sorted, p)
}

/// The journal files ordered by decreasing file name, as a stable sort orders
/// them: newest journal first, since journal names carry their date.
pub fn sort_journals(files: Vec<JournalFile>) -> (sorted: Vec<JournalFile>)
    ensures
        sorted_by_name_desc(files@, sorted@),
{
    let ghost all = files@;
    let n = files.len();
    let mut rest = files;
    let mut out: Vec<JournalFile> = Vec::new();
    let ghost mut p: Seq<int> = Seq::empty();
    while rest.len() > 0
        invariant
            n == all.len(),
            rest@ == all.take(rest@.len() as int),
            out@.len() + rest@.len() == n,
            p.len() == out@.len(),
            forall|i: int| 0 <= i < p.len() ==> rest@.len() <= #[trigger] p[i] < n,
            forall|i: int, j: int| 0 <= i < j < p.len() ==> p[i] != p[j],
            forall|i: int| 0 <= i < out@.len() ==> #[trigger] out@[i] == all[p[i]],
            forall|i: int, j: int|
                0 <= i < j < out@.len() ==> !name_less(file_key(out@[i]), file_key(out@[j])),
            forall|i: int, j: int|
                0 <= i < j < out@.len() && file_key(out@[i]) == file_key(out@[j]) ==> p[i] < p[j],
        decreases rest@.len(),
    {
        let f = rest.pop().unwrap();
        let ghost k = rest@.len() as int;
        proof {
            assert(f == all[k]);
            assert(rest@ =~= all.take(k));
        }
        let len = out.len();
        let mut pos: usize = 0;
        while pos < len && name_is_less(&f.name, &out[pos].name)
            invariant
                0 <= pos <= len,
                len == out@.len(),
                forall|i: int| 0 <= i < pos ==> name_less(file_key(f), file_key(#[trigger] out@[i])),
            decreases len - pos,
        {
            pos = pos + 1;
        }
        let ghost old_out = out@;
        let ghost old_p = p;
        out.insert(pos, f);
        proof {
            p = old_p.insert(pos as int, k);
            assert(out@ == old_out.insert(pos as int, f));
            assert forall|i: int, j: int|
                0 <= i < j < out@.len() implies !name_less(file_key(out@[i]), file_key(out@[j])) by {
                let x = file_key(f);
                if j == pos {
                    lemma_name_less_order(x, file_key(out@[i]), x);
                    assert(out@[i] == old_out[i]);
                } else if i == pos {
                    let o = file_key(out@[j]);
                    assert(out@[j] == old_out[j - 1]);
                    if pos < len {
                        let q = file_key(old_out[pos as int]);
                        assert(!name_less(x, q));
                        if j - 1 > pos {
                            assert(!name_less(q, o));
                        }
                        lemma_name_less_order(q, x, o);
                        lemma_name_less_order(x, q, o);
                        lemma_name_less_order(q, o, x);
                        lemma_name_less_order(o, q, x);
                    }
                } else {
                    let ii = if i < pos { i } else { i - 1 };
                    let jj = if j < pos { j } else { j - 1 };
                    assert(out@[i] == old_out[ii]);
                    assert(out@[j] == old_out[jj]);
                }
            }
            assert forall|i: int, j: int|
                0 <= i < j < out@.len() && file_key(out@[i]) == file_key(out@[j]) implies p[i] < p[j] by {
                let x = file_key(f);
                if j == pos {
                    assert(out@[i] == old_out[i]);
                    lemma_name_less_order(x, x, x);
                } else if i == pos {
                    assert(p[j] == old_p[j - 1]);
                } else {
                    let ii = if i < pos { i } else { i - 1 };
                    let jj = if j < pos { j } else { j - 1 };
                    assert(out@[i] == old_out[ii]);
                    assert(out@[j] == old_out[jj]);
                    assert(p[i] == old_p[ii]);
                    assert(p[j] == old_p[jj]);
                }
            }
            assert forall|i: int| 0 <= i < out@.len() implies #[trigger] out@[i] == all[p[i]] by {
                if i < pos {
                    assert(out@[i] == old_out[i]);
                } else if i > pos {
                    assert(out@[i] == old_out[i - 1]);
                }
            }
            assert forall|i: int, j: int| 0 <= i < j < p.len() implies p[i] != p[j] by {
                if i != pos && j != pos {
                    let ii = if i < pos { i } else { i - 1 };
                    let jj = if j < pos { j } else { j - 1 };
                    assert(p[i] == old_p[ii]);
                    assert(p[j] == old_p[jj]);
                } else if i == pos {
                    assert(p[j] == old_p[j - 1]);
                } else {
                    assert(p[i] == old_p[i]);
                }
            }
            assert forall|i: int| 0 <= i < p.len() implies rest@.len() <= #[trigger] p[i] < n by {
                if i < pos {
                    assert(p[i] == old_p[i]);
                } else if i > pos {
                    assert(p[i] == old_p[i - 1]);
                }
            }
        }
    }
    assert(is_sorted_by_name_desc(all, out@, p));
    out
}

} // verus!
