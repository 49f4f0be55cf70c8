use vstd::prelude::*;

verus! {

/// Lexicographic order on byte strings, in which a proper prefix comes first.
pub open spec fn bytes_lt(a: Seq<u8>, b: Seq<u8>) -> bool
    decreases a.len(),
{
    if a.len() == 0 {
        b.len() > 0
    } else if b.len() == 0 {
        false
    } else if a[0] != b[0] {
        a[0] < b[0]
    } else {
        bytes_lt(a.drop_first(), b.drop_first())
    }
}

pub proof fn lemma_bytes_lt_irreflexive(a: Seq<u8>)
    ensures
        !bytes_lt(a, a),
    decreases a.len(),
{
    if a.len() > 0 {
        lemma_bytes_lt_irreflexive(a.drop_first());
    }
}

pub proof fn lemma_bytes_lt_transitive(a: Seq<u8>, b: Seq<u8>, c: Seq<u8>)
    requires
        bytes_lt(a, b),
        bytes_lt(b, c),
    ensures
        bytes_lt(a, c),
    decreases a.len(),
{
    if a.len() > 0 && b.len() > 0 && c.len() > 0 && a[0] == b[0] && b[0] == c[0] {
        lemma_bytes_lt_transitive(a.drop_first(), b.drop_first(), c.drop_first());
    }
}

pub proof fn lemma_bytes_lt_total(a: Seq<u8>, b: Seq<u8>)
    ensures
        bytes_lt(a, b) || bytes_lt(b, a) || a == b,
    decreases a.len(),
{
    if a.len() == 0 && b.len() == 0 {
        assert(a =~= b);
    } else if a.len() > 0 && b.len() > 0 && a[0] == b[0] {
        lemma_bytes_lt_total(a.drop_first(), b.drop_first());
        if a.drop_first() == b.drop_first() {
            assert(a =~= seq![a[0]] + a.drop_first());
            assert(b =~= seq![b[0]] + b.drop_first());
        }
    }
}

pub proof fn lemma_bytes_lt_asymmetric(a: Seq<u8>, b: Seq<u8>)
    requires
        bytes_lt(a, b),
    ensures
        !bytes_lt(b, a),
{
    if bytes_lt(b, a) {
        lemma_bytes_lt_transitive(a, b, a);
        lemma_bytes_lt_irreflexive(a);
    }
}

/// Compares two byte strings lexicographically.
pub fn bytes_less(a: &[u8], b: &[u8]) -> (r: bool)
    ensures
        r == bytes_lt(a@, b@),
{
    let mut i: usize = 0;
    assert(a@.skip(0) =~= a@);
    assert(b@.skip(0) =~= b@);
    while i < a.len() && i < b.len()
        invariant
            i <= a@.len(),
            i <= b@.len(),
            bytes_lt(a@, b@) == bytes_lt(a@.skip(i as int), b@.skip(i as int)),
        decreases a@.len() - i,
    {
        if a[i] != b[i] {
            return a[i] < b[i];
        }
        assert(a@.skip(i as int).drop_first() =~= a@.skip(i + 1));
        assert(b@.skip(i as int).drop_first() =~= b@.skip(i + 1));
        i = i + 1;
    }
    i < b.len()
}

/// The ASCII lower-case form of a byte.
pub open spec fn ascii_lower(c: u8) -> u8 {
    if 65 <= c <= 90 {
        (c + 32) as u8
    } else {
        c
    }
}

/// Whether two byte strings are equal when ASCII letters are compared
/// without regard to case.
pub open spec fn eq_ignore_case(a: Seq<u8>, word: Seq<u8>) -> bool {
    a.len() == word.len() && forall|i: int| 0 <= i < a.len() ==> ascii_lower(#[trigger] a[i]) == word[i]
}

/// The file extensions recognised as images in a frame directory, in lower case.
pub open spec fn sequence_extensions() -> Seq<Seq<u8>> {
    seq![
        seq![112u8, 110, 103],
        seq![106u8, 112, 103],
        seq![106u8, 112, 101, 103],
        seq![98u8, 109, 112],
        seq![103u8, 105, 102],
        seq![119u8, 101, 98, 112],
    ]
}

/// Whether an extension names one of the recognised image formats, in any case.
pub open spec fn is_image_extension(ext: Seq<u8>) -> bool {
    exists|k: int| 0 <= k < sequence_extensions().len() && eq_ignore_case(ext, #[trigger] sequence_extensions()[k])
}

/// Position of the last `.` in a name, or -1.
pub open spec fn last_dot(name: Seq<u8>) -> int
    decreases name.len(),
{
    if name.len() == 0 {
        -1
    } else if name.last() == 46 {
        name.len() - 1
    } else {
        last_dot(name.drop_last())
    }
}

/// The extension of a file name, as `Path::extension` defines it: the text
/// after the last `.`, unless there is no dot, the only dot leads the name,
/// or the name is `..`.
pub open spec fn extension_of(name: Seq<u8>) -> Option<Seq<u8>> {
    let d = last_dot(name);
    if d <= 0 || name == seq![46u8, 46u8] {
        None
    } else {
        Some(name.subrange(d + 1, name.len() as int))
    }
}

/// Whether a directory entry is part of an image sequence.
pub open spec fn is_sequence_file(name: Seq<u8>) -> bool {
    match extension_of(name) {
        Some(ext) => is_image_extension(ext),
        None => false,
    }
}

proof fn lemma_last_dot(name: Seq<u8>)
    ensures
        -1 <= last_dot(name) < name.len(),
        last_dot(name) >= 0 ==> name[last_dot(name)] == 46,
        forall|i: int| last_dot(name) < i < name.len() ==> name[i] != 46,
    decreases name.len(),
{
    if name.len() > 0 && name.last() != 46 {
        let p = name.drop_last();
        lemma_last_dot(p);
        assert forall|i: int| last_dot(name) < i < name.len() implies name[i] != 46 by {
            if i < name.len() - 1 {
                assert(p[i] == name[i]);
            }
        }
    }
}

fn eq_ignore_case_exec(a: &[u8], word: &[u8]) -> (r: bool)
    ensures
        r == eq_ignore_case(a@, word@),
{
    if a.len() != word.len() {
        return false;
    }
    let mut i: usize = 0;
    while i < a.len()
        invariant
            a@.len() == word@.len(),
            i <= a@.len(),
            forall|k: int| 0 <= k < i ==> ascii_lower(#[trigger] a@[k]) == word@[k],
        decreases a@.len() - i,
    {
        let c = a[i];
        let lower: u8 = if 65 <= c && c <= 90 {
            c + 32
        } else {
            c
        };
        if lower != word[i] {
            return false;
        }
        i = i + 1;
    }
    true
}

/// Whether an extension names one of the recognised image formats.
pub fn is_image_extension_exec(ext: &[u8]) -> (r: bool)
    ensures
        r == is_image_extension(ext@),
{
    let ghost exts = sequence_extensions();
    let png = eq_ignore_case_exec(ext, &[112u8, 110, 103]);
    let jpg = eq_ignore_case_exec(ext, &[106u8, 112, 103]);
    let jpeg = eq_ignore_case_exec(ext, &[106u8, 112, 101, 103]);
    let bmp = eq_ignore_case_exec(ext, &[98u8, 109, 112]);
    let gif = eq_ignore_case_exec(ext, &[103u8, 105, 102]);
    let webp = eq_ignore_case_exec(ext, &[119u8, 101, 98, 112]);
    let r = png || jpg || jpeg || bmp || gif || webp;
    proof {
        assert(png == eq_ignore_case(ext@, exts[0]));
        assert(jpg == eq_ignore_case(ext@, exts[1]));
        assert(jpeg == eq_ignore_case(ext@, exts[2]));
        assert(bmp == eq_ignore_case(ext@, exts[3]));
        assert(gif == eq_ignore_case(ext@, exts[4]));
        assert(webp == eq_ignore_case(ext@, exts[5]));
        if is_image_extension(ext@) {
            let k = choose|k: int| 0 <= k < exts.len() && eq_ignore_case(ext@, #[trigger] exts[k]);
            assert(0 <= k < 6);
        }
    }
    r
}

/// Whether a file name carries one of the image extensions of a sequence.
pub fn is_sequence_file_exec(name: &[u8]) -> (r: bool)
    ensures
        r == is_sequence_file(name@),
{
    proof {
        lemma_last_dot(name@);
    }
    // Find the last dot, scanning from the end.
    let mut i: usize = name.len();
    while i > 0 && name[i - 1] != 46
        invariant
            i <= name@.len(),
            forall|k: int| i <= k < name@.len() ==> name@[k] != 46,
        decreases i,
    {
        i = i - 1;
    }
    proof {
        if i > 0 {
            assert(name@[i - 1] == 46);
            assert(last_dot(name@) >= i - 1);
        } else {
            assert(last_dot(name@) < 0);
        }
        assert(last_dot(name@) == i - 1);
    }
    if i <= 1 {
        return false;
    }
    if name.len() == 2 && name[0] == 46 && name[1] == 46 {
        assert(name@ =~= seq![46u8, 46u8]);
        return false;
    }
    assert(name@ != seq![46u8, 46u8]);
    let mut ext: Vec<u8> = Vec::new();
    let mut j: usize = i;
    while j < name.len()
        invariant
            i <= j <= name@.len(),
            ext@ == name@.subrange(i as int, j as int),
        decreases name@.len() - j,
    {
        ext.push(name[j]);
        assert(ext@ =~= name@.subrange(i as int, j + 1));
        j = j + 1;
    }
    is_image_extension_exec(ext.as_slice())
}


/// Playback order of directory entries: by name, byte by byte (as paths in
/// one directory sort), and by position among equal names.
pub open spec fn plays_before(names: Seq<Vec<u8>>, i: int, j: int) -> bool {
    bytes_lt(names[i]@, names[j]@) || (names[i]@ == names[j]@ && i < j)
}

/// Why a directory cannot be played as an image sequence.
#[derive(Clone, Copy, Debug, PartialEq, Eq, Structural)]
pub enum SequenceError {
    /// No entry has an image extension.
    NoImageFiles,
}

/// Whether `order` lists, without repetition and in playback order, exactly
/// the entries of `names` that are image files.
pub open spec fn is_playback_order(names: Seq<Vec<u8>>, order: Seq<usize>) -> bool {
    &&& forall|k: int| 0 <= k < order.len() ==> #[trigger] order[k] < names.len()
        && is_sequence_file(names[order[k] as int]@)
    &&& forall|j: int| 0 <= j < names.len() && is_sequence_file(#[trigger] names[j]@)
        ==> order.contains(j as usize)
    &&& forall|a: int, b: int|
        0 <= a < b < order.len() ==> plays_before(names, #[trigger] order[a] as int, #[trigger] order[b] as int)
}

proof fn lemma_plays_before_transitive(names: Seq<Vec<u8>>, i: int, j: int, k: int)
    requires
        plays_before(names, i, j),
        plays_before(names, j, k),
    ensures
        plays_before(names, i, k),
{
    if bytes_lt(names[i]@, names[j]@) && bytes_lt(names[j]@, names[k]@) {
        lemma_bytes_lt_transitive(names[i]@, names[j]@, names[k]@);
    }
}

/// Picks the image files out of a directory listing and puts them in the
/// order they are played: entry names are given as raw bytes, the result
/// holds positions in `names`. Fails when there is no image file at all.
pub fn select_sequence_files(names: &[Vec<u8>]) -> (r: Result<Vec<usize>, SequenceError>)
    ensures
        r is Err <==> forall|j: int| 0 <= j < names@.len() ==> !is_sequence_file(#[trigger] names@[j]@),
        r matches Ok(order) ==> order@.len() > 0 && is_playback_order(names@, order@),
{
    let n = names.len();
    let mut order: Vec<usize> = Vec::new();
    let mut i: usize = 0;
    while i < n
        invariant
            i <= n,
            n == names@.len(),
            forall|k: int| 0 <= k < order@.len() ==> #[trigger] order@[k] < i
                && is_sequence_file(names@[order@[k] as int]@),
            forall|j: int| 0 <= j < i && is_sequence_file(#[trigger] names@[j]@)
                ==> order@.contains(j as usize),
            forall|a: int, b: int|
                0 <= a < b < order@.len() ==> plays_before(names@, #[trigger] order@[a] as int, #[trigger] order@[b] as int),
        decreases n - i,
    {
        if is_sequence_file_exec(names[i].as_slice()) {
            let mut p: usize = 0;
            while p < order.len() && !bytes_less(names[i].as_slice(), names[order[p]].as_slice())
                invariant
                    p <= order@.len(),
                    i < n,
                    n == names@.len(),
                    forall|k: int| 0 <= k < order@.len() ==> #[trigger] order@[k] < i,
                    forall|q: int| 0 <= q < p ==> !bytes_lt(names@[i as int]@, names@[#[trigger] order@[q] as int]@),
                decreases order@.len() - p,
            {
                p = p + 1;
            }
            let ghost old_order = order@;
            order.insert(p, i);
            proof {
                let ni = names@[i as int]@;
                assert(order@ == old_order.insert(p as int, i));
                assert forall|k: int| 0 <= k < order@.len() implies #[trigger] order@[k] < i + 1
                    && is_sequence_file(names@[order@[k] as int]@) by {
                    if k < p {
                        assert(order@[k] == old_order[k]);
                    } else if k > p {
                        assert(order@[k] == old_order[k - 1]);
                    }
                }
                assert forall|j: int| 0 <= j < i + 1 && is_sequence_file(#[trigger] names@[j]@)
                    implies order@.contains(j as usize) by {
                    if j == i {
                        assert(order@[p as int] == i);
                    } else {
                        let k = choose|k: int| 0 <= k < old_order.len() && old_order[k] == j as usize;
                        if k < p {
                            assert(order@[k] == old_order[k]);
                        } else {
                            assert(order@[k + 1] == old_order[k]);
                        }
                    }
                }
                // Everything before position p plays before the new entry.
                assert forall|q: int| 0 <= q < p implies plays_before(names@, #[trigger] old_order[q] as int, i as int) by {
                    let nq = names@[old_order[q] as int]@;
                    assert(!bytes_lt(ni, nq));
                    lemma_bytes_lt_total(ni, nq);
                }
                // The new entry plays before everything from position p on.
                assert forall|q: int| p <= q < old_order.len() implies plays_before(names@, i as int, #[trigger] old_order[q] as int) by {
                    let np = names@[old_order[p as int] as int]@;
                    assert(bytes_lt(ni, np));
                    if q > p {
                        assert(plays_before(names@, old_order[p as int] as int, old_order[q] as int));
                        let nq = names@[old_order[q] as int]@;
                        if bytes_lt(np, nq) {
                            lemma_bytes_lt_transitive(ni, np, nq);
                        }
                    }
                }
                assert forall|a: int, b: int| 0 <= a < b < order@.len() implies plays_before(names@, #[trigger] order@[a] as int, #[trigger] order@[b] as int) by {
                    if b < p {
                        assert(order@[a] == old_order[a] && order@[b] == old_order[b]);
                    } else if b == p {
                        assert(order@[a] == old_order[a]);
                    } else if a < p {
                        assert(order@[a] == old_order[a] && order@[b] == old_order[b - 1]);
                        if p < old_order.len() {
                            assert(plays_before(names@, old_order[a] as int, i as int));
                            assert(plays_before(names@, i as int, old_order[b - 1] as int));
                            lemma_plays_before_transitive(names@, old_order[a] as int, i as int, old_order[b - 1] as int);
                        }
                    } else if a == p {
                        assert(order@[b] == old_order[b - 1]);
                    } else {
                        assert(order@[a] == old_order[a - 1] && order@[b] == old_order[b - 1]);
                    }
                }
            }
        }
        i = i + 1;
    }
    if order.len() == 0 {
        proof {
            assert forall|j: int| 0 <= j < names@.len() implies !is_sequence_file(#[trigger] names@[j]@) by {
                if is_sequence_file(names@[j]@) {
                    assert(order@.contains(j as usize));
                }
            }
        }
        Err(SequenceError::NoImageFiles)
    } else {
        proof {
            let k = order@[0] as int;
            assert(is_sequence_file(names@[k]@));
        }
        Ok(order)
    }
}


proof fn lemma_plays_before_strict(names: Seq<Vec<u8>>, i: int, j: int)
    ensures
        !(plays_before(names, i, j) && plays_before(names, j, i)),
        !plays_before(names, i, i),
{
    lemma_bytes_lt_irreflexive(names[i]@);
    if bytes_lt(names[i]@, names[j]@) {
        lemma_bytes_lt_asymmetric(names[i]@, names[j]@);
    }
    if bytes_lt(names[j]@, names[i]@) {
        lemma_bytes_lt_asymmetric(names[j]@, names[i]@);
    }
}

pub open spec fn strictly_ordered(names: Seq<Vec<u8>>, order: Seq<usize>) -> bool {
    forall|a: int, b: int|
        0 <= a < b < order.len() ==> plays_before(names, #[trigger] order[a] as int, #[trigger] order[b] as int)
}

proof fn lemma_ordered_unique(names: Seq<Vec<u8>>, o1: Seq<usize>, o2: Seq<usize>)
    requires
        strictly_ordered(names, o1),
        strictly_ordered(names, o2),
        forall|x: usize| o1.contains(x) <==> o2.contains(x),
    ensures
        o1 == o2,
    decreases o1.len(),
{
    if o1.len() == 0 {
        if o2.len() > 0 {
            assert(o2.contains(o2[0]));
        }
        assert(o1 =~= o2);
    } else {
        assert(o1.contains(o1[0]));
        assert(o2.len() > 0);
        assert(o2.contains(o2[0]));
        let m = choose|m: int| 0 <= m < o2.len() && o2[m] == o1[0];
        let m2 = choose|m2: int| 0 <= m2 < o1.len() && o1[m2] == o2[0];
        if m > 0 {
            assert(plays_before(names, o2[0] as int, o2[m] as int));
            if m2 > 0 {
                assert(plays_before(names, o1[0] as int, o1[m2] as int));
            }
            lemma_plays_before_strict(names, o2[0] as int, o1[0] as int);
        }
        let t1 = o1.drop_first();
        let t2 = o2.drop_first();
        assert forall|x: usize| t1.contains(x) <==> t2.contains(x) by {
            if t1.contains(x) {
                let k = choose|k: int| 0 <= k < t1.len() && t1[k] == x;
                assert(o1[k + 1] == x);
                assert(o1.contains(x));
                assert(plays_before(names, o1[0] as int, o1[k + 1] as int));
                lemma_plays_before_strict(names, o1[0] as int, o1[0] as int);
                let k2 = choose|k2: int| 0 <= k2 < o2.len() && o2[k2] == x;
                assert(k2 != 0);
                assert(t2[k2 - 1] == x);
            }
            if t2.contains(x) {
                let k = choose|k: int| 0 <= k < t2.len() && t2[k] == x;
                assert(o2[k + 1] == x);
                assert(o2.contains(x));
                assert(plays_before(names, o2[0] as int, o2[k + 1] as int));
                lemma_plays_before_strict(names, o2[0] as int, o2[0] as int);
                let k2 = choose|k2: int| 0 <= k2 < o1.len() && o1[k2] == x;
                assert(k2 != 0);
                assert(t1[k2 - 1] == x);
            }
        }
        assert forall|a: int, b: int| 0 <= a < b < t1.len() implies plays_before(names, #[trigger] t1[a] as int, #[trigger] t1[b] as int) by {
            assert(t1[a] == o1[a + 1] && t1[b] == o1[b + 1]);
        }
        assert forall|a: int, b: int| 0 <= a < b < t2.len() implies plays_before(names, #[trigger] t2[a] as int, #[trigger] t2[b] as int) by {
            assert(t2[a] == o2[a + 1] && t2[b] == o2[b + 1]);
        }
        lemma_ordered_unique(names, t1, t2);
        assert(o1 =~= seq![o1[0]] + t1);
        assert(o2 =~= seq![o2[0]] + t2);
    }
}

/// The playback order of a listing is unique: any two orders that list
/// exactly its image files, without repetition and by name, are the same.
pub proof fn lemma_playback_order_unique(names: Seq<Vec<u8>>, o1: Seq<usize>, o2: Seq<usize>)
    requires
        is_playback_order(names, o1),
        is_playback_order(names, o2),
    ensures
        o1 == o2,
{
    assert forall|x: usize| o1.contains(x) <==> o2.contains(x) by {
        if o1.contains(x) {
            let k = choose|k: int| 0 <= k < o1.len() && o1[k] == x;
            assert(x < names.len() && is_sequence_file(names[x as int]@));
        }
        if o2.contains(x) {
            let k = choose|k: int| 0 <= k < o2.len() && o2[k] == x;
            assert(x < names.len() && is_sequence_file(names[x as int]@));
        }
    }
    lemma_ordered_unique(names, o1, o2);
}


/// Name order is plain lexicographic byte order: at the first byte where two
/// names differ the smaller byte comes first, whatever their lengths.
pub proof fn lemma_first_difference_decides(a: Seq<u8>, b: Seq<u8>, k: int)
    requires
        0 <= k < a.len(),
        k < b.len(),
        a.subrange(0, k) == b.subrange(0, k),
        a[k] < b[k],
    ensures
        bytes_lt(a, b),
        !bytes_lt(b, a),
    decreases k,
{
    if k > 0 {
        assert(a[0] == a.subrange(0, k)[0]);
        assert(b[0] == b.subrange(0, k)[0]);
        let a1 = a.drop_first();
        let b1 = b.drop_first();
        assert(a1.subrange(0, k - 1) =~= a.subrange(0, k).drop_first());
        assert(b1.subrange(0, k - 1) =~= b.subrange(0, k).drop_first());
        lemma_first_difference_decides(a1, b1, k - 1);
    }
}

/// A name that is a proper prefix of another comes first.
pub proof fn lemma_prefix_comes_first(a: Seq<u8>, b: Seq<u8>)
    requires
        a.len() < b.len(),
        a == b.subrange(0, a.len() as int),
    ensures
        bytes_lt(a, b),
        !bytes_lt(b, a),
    decreases a.len(),
{
    if a.len() > 0 {
        assert(a[0] == b[0]);
        assert(a.drop_first() =~= b.drop_first().subrange(0, a.len() - 1));
        lemma_prefix_comes_first(a.drop_first(), b.drop_first());
    }
}

/// In a playback order, of two entries whose names first differ at byte
/// `k`, the one with the smaller byte there is played earlier.
pub proof fn lemma_order_is_by_name(
    names: Seq<Vec<u8>>,
    order: Seq<usize>,
    p: int,
    q: int,
    k: int,
)
    requires
        is_playback_order(names, order),
        0 <= p < order.len(),
        0 <= q < order.len(),
        0 <= k < names[order[p] as int]@.len(),
        k < names[order[q] as int]@.len(),
        names[order[p] as int]@.subrange(0, k) == names[order[q] as int]@.subrange(0, k),
        names[order[p] as int]@[k] < names[order[q] as int]@[k],
    ensures
        p < q,
{
    let a = names[order[p] as int]@;
    let b = names[order[q] as int]@;
    lemma_first_difference_decides(a, b, k);
    if q < p {
        assert(plays_before(names, order[q] as int, order[p] as int));
        assert(a != b);
    }
}

/// In a playback order, an entry whose name is a proper prefix of another's
/// is played earlier.
pub proof fn lemma_order_prefix_first(names: Seq<Vec<u8>>, order: Seq<usize>, p: int, q: int)
    requires
        is_playback_order(names, order),
        0 <= p < order.len(),
        0 <= q < order.len(),
        names[order[p] as int]@.len() < names[order[q] as int]@.len(),
        names[order[p] as int]@ == names[order[q] as int]@.subrange(
            0,
            names[order[p] as int]@.len() as int,
        ),
    ensures
        p < q,
{
    let a = names[order[p] as int]@;
    let b = names[order[q] as int]@;
    lemma_prefix_comes_first(a, b);
    if q < p {
        assert(plays_before(names, order[q] as int, order[p] as int));
        assert(a.len() != b.len());
    }
}

/// The image extensions are exactly png, jpg, jpeg, bmp, gif and webp, in
/// any mix of upper and lower case.
pub proof fn lemma_image_extensions(ext: Seq<u8>)
    ensures
        is_image_extension(ext) <==> (eq_ignore_case(ext, seq![112u8, 110, 103]) || eq_ignore_case(
            ext,
            seq![106u8, 112, 103],
        ) || eq_ignore_case(ext, seq![106u8, 112, 101, 103]) || eq_ignore_case(
            ext,
            seq![98u8, 109, 112],
        ) || eq_ignore_case(ext, seq![103u8, 105, 102]) || eq_ignore_case(
            ext,
            seq![119u8, 101, 98, 112],
        )),
        forall|c: u8| 65 <= c <= 90 ==> #[trigger] ascii_lower(c) == c + 32,
        forall|c: u8| !(65 <= c <= 90) ==> #[trigger] ascii_lower(c) == c,
{
    let exts = sequence_extensions();
    if is_image_extension(ext) {
        let k = choose|k: int| 0 <= k < exts.len() && eq_ignore_case(ext, #[trigger] exts[k]);
        assert(0 <= k < 6);
    }
    assert(exts[0] == seq![112u8, 110, 103]);
    assert(exts[1] == seq![106u8, 112, 103]);
    assert(exts[2] == seq![106u8, 112, 101, 103]);
    assert(exts[3] == seq![98u8, 109, 112]);
    assert(exts[4] == seq![103u8, 105, 102]);
    assert(exts[5] == seq![119u8, 101, 98, 112]);
}

/// A name made of a non-empty stem, a dot and an extension without dots is
/// part of a sequence exactly when the extension, ignoring ASCII case, is one
/// of png, jpg, jpeg, bmp, gif and webp; a name without a dot, or whose only
/// dot leads it, never is.
pub proof fn lemma_sequence_file_by_extension(stem: Seq<u8>, ext: Seq<u8>)
    requires
        stem.len() > 0,
        forall|i: int| 0 <= i < ext.len() ==> ext[i] != 46,
    ensures
        is_sequence_file(stem + seq![46u8] + ext) == is_image_extension(ext),
        !is_sequence_file(seq![46u8] + ext),
        !is_sequence_file(ext),
{
    let name = stem + seq![46u8] + ext;
    lemma_last_dot(name);
    assert(name[stem.len() as int] == 46);
    assert forall|i: int| stem.len() < i < name.len() implies name[i] != 46 by {
        assert(name[i] == ext[i - stem.len() - 1]);
    }
    assert(last_dot(name) == stem.len());
    assert(name.subrange((stem.len() + 1) as int, name.len() as int) =~= ext);
    if name == seq![46u8, 46u8] {
        assert(name.len() == 2);
        assert(ext.len() == 0);
        assert(name[0] == 46);
    }
    let lead = seq![46u8] + ext;
    lemma_last_dot(lead);
    assert(lead[0] == 46);
    assert forall|i: int| 0 < i < lead.len() implies lead[i] != 46 by {
        assert(lead[i] == ext[i - 1]);
    }
    lemma_last_dot(ext);
}

} // verus!
