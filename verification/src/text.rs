//! Text primitives shared by every part of the compiler: decimal numerals,
//! reproducible hashing, a total order on texts, splitting and joining.

use std::collections::hash_map::DefaultHasher;
use std::hash::Hasher;
use vstd::prelude::*;
use vstd::std_specs::hash::*;
use vstd::std_specs::iter::IteratorSpec;
use vstd::string::*;

verus! {

/// The views of a sequence of owned strings.
pub open spec fn texts(v: Seq<String>) -> Seq<Seq<char>> {
    Seq::new(v.len(), |i: int| v[i]@)
}

/// The character that writes a value below ten.
pub open spec fn digit(d: nat) -> char {
    if d == 0 {
        '0'
    } else if d == 1 {
        '1'
    } else if d == 2 {
        '2'
    } else if d == 3 {
        '3'
    } else if d == 4 {
        '4'
    } else if d == 5 {
        '5'
    } else if d == 6 {
        '6'
    } else if d == 7 {
        '7'
    } else if d == 8 {
        '8'
    } else {
        '9'
    }
}

/// The decimal numeral of `n`, without leading zeros.
pub open spec fn decimal(n: nat) -> Seq<char>
    decreases n,
{
    if n < 10 {
        seq![digit(n)]
    } else {
        decimal(n / 10).push(digit(n % 10))
    }
}

fn digit_text(d: u64) -> (s: &'static str)
    requires
        d < 10,
    ensures
        s@ == seq![digit(d as nat)],
{
    proof {
        reveal_strlit("0");
        reveal_strlit("1");
        reveal_strlit("2");
        reveal_strlit("3");
        reveal_strlit("4");
        reveal_strlit("5");
        reveal_strlit("6");
        reveal_strlit("7");
        reveal_strlit("8");
        reveal_strlit("9");
    }
    let s = if d == 0 {
        "0"
    } else if d == 1 {
        "1"
    } else if d == 2 {
        "2"
    } else if d == 3 {
        "3"
    } else if d == 4 {
        "4"
    } else if d == 5 {
        "5"
    } else if d == 6 {
        "6"
    } else if d == 7 {
        "7"
    } else if d == 8 {
        "8"
    } else {
        "9"
    };
    assert(s@ =~= seq![digit(d as nat)]);
    s
}

/// Writes `n` as a decimal numeral.
pub fn decimal_string(n: u64) -> (s: String)
    ensures
        s@ == decimal(n as nat),
    decreases n,
{
    if n < 10 {
        digit_text(n).to_owned()
    } else {
        let mut s = decimal_string(n / 10);
        s.append(digit_text(n % 10));
        assert(s@ =~= decimal(n as nat));
        s
    }
}

/// What is fed to the hasher for one text: its UTF-8 bytes, then one byte
/// that no UTF-8 text holds, so that consecutive texts cannot run together.
pub open spec fn hash_input(s: Seq<char>) -> Seq<Seq<u8>> {
    seq![vstd::utf8::encode_utf8(s), seq![0xffu8]]
}

/// The 64-bit hash of one text. It depends on the characters alone.
pub open spec fn text_hash(s: Seq<char>) -> u64 {
    DefaultHasher::spec_finish(hash_input(s))
}

/// The 64-bit hash of two texts fed one after the other.
pub open spec fn text_pair_hash(a: Seq<char>, b: Seq<char>) -> u64 {
    DefaultHasher::spec_finish(hash_input(a) + hash_input(b))
}

fn feed(hasher: &mut DefaultHasher, s: &str)
    ensures
        final(hasher)@ == old(hasher)@ + hash_input(s@),
{
    hasher.write(s.as_bytes());
    let end: [u8; 1] = [0xffu8];
    hasher.write(end.as_slice());
    assert(end@ =~= seq![0xffu8]);
    assert(hasher@ =~= old(hasher)@ + hash_input(s@));
}

/// Hashes one text with a hasher in its initial state.
pub fn hash_text(s: &str) -> (h: u64)
    ensures
        h == text_hash(s@),
{
    let mut hasher = DefaultHasher::new();
    feed(&mut hasher, s);
    assert(hasher@ =~= hash_input(s@));
    hasher.finish()
}

/// Hashes two texts, one after the other, with a hasher in its initial state.
pub fn hash_text_pair(a: &str, b: &str) -> (h: u64)
    ensures
        h == text_pair_hash(a@, b@),
{
    let mut hasher = DefaultHasher::new();
    feed(&mut hasher, a);
    feed(&mut hasher, b);
    assert(hasher@ =~= hash_input(a@) + hash_input(b@));
    hasher.finish()
}

/// The characters of a text, one by one.
pub fn chars_of(s: &str) -> (v: Vec<char>)
    ensures
        v@ == s@,
{
    let mut v: Vec<char> = Vec::new();
    for c in it: s.chars()
        invariant
            it.seq() == s@,
            v@ == s@.take(it.index() as int),
    {
        v.push(c);
    }
    assert(v@ =~= s@);
    v
}

/// A copy of a list of texts.
pub fn clone_texts(list: &Vec<String>) -> (copy: Vec<String>)
    ensures
        copy@ == list@,
{
    let mut copy: Vec<String> = Vec::new();
    let mut i: usize = 0;
    while i < list.len()
        invariant
            i <= list.len(),
            copy@ == list@.take(i as int),
        decreases list.len() - i,
    {
        copy.push(list[i].clone());
        assert(copy@ =~= list@.take(i + 1));
        i += 1;
    }
    assert(list@.take(list.len() as int) =~= list@);
    copy
}

/// Whether two texts hold the same characters.
pub fn same_text(a: &str, b: &str) -> (r: bool)
    ensures
        r == (a@ == b@),
{
    let x = chars_of(a);
    let y = chars_of(b);
    if x.len() != y.len() {
        return false;
    }
    let mut i: usize = 0;
    while i < x.len()
        invariant
            i <= x.len(),
            x.len() == y.len(),
            x@ == a@,
            y@ == b@,
            forall|k: int| 0 <= k < i ==> x[k] == y[k],
        decreases x.len() - i,
    {
        if x[i] != y[i] {
            return false;
        }
        i += 1;
    }
    assert(a@ =~= b@);
    true
}

/// Whether `a` comes before `b` by code point.
pub open spec fn char_lt(a: char, b: char) -> bool {
    (a as int) < (b as int)
}

/// Lexicographic order from position `i` on, given that the texts agree
/// before it.
pub open spec fn lt_from(a: Seq<char>, b: Seq<char>, i: int) -> bool
    decreases a.len() - i,
{
    if i < 0 || i >= b.len() {
        false
    } else if i >= a.len() {
        true
    } else if a[i] != b[i] {
        char_lt(a[i], b[i])
    } else {
        lt_from(a, b, i + 1)
    }
}

/// The strict lexicographic order on texts, by code point: a proper prefix
/// comes before its extensions.
pub open spec fn text_lt(a: Seq<char>, b: Seq<char>) -> bool {
    lt_from(a, b, 0)
}

/// How one text stands to another in the order `text_lt`.
#[derive(Clone, Copy, Debug, PartialEq, Eq, Structural)]
pub enum TextOrder {
    Before,
    Same,
    After,
}

/// Compares two texts in the order `text_lt`.
pub fn compare_text(a: &str, b: &str) -> (r: TextOrder)
    ensures
        (r is Before) == text_lt(a@, b@),
        (r is Same) == (a@ == b@),
        (r is After) == text_lt(b@, a@),
{
    let x = chars_of(a);
    let y = chars_of(b);
    let mut i: usize = 0;
    while i < x.len() && i < y.len()
        invariant
            i <= x.len(),
            i <= y.len(),
            x@ == a@,
            y@ == b@,
            forall|k: int| 0 <= k < i ==> x[k] == y[k],
            text_lt(a@, b@) == lt_from(a@, b@, i as int),
            text_lt(b@, a@) == lt_from(b@, a@, i as int),
        decreases x.len() - i,
    {
        let p = x[i];
        let q = y[i];
        if p != q {
            assert(a@[i as int] != b@[i as int]);
            if p < q {
                return TextOrder::Before;
            } else {
                return TextOrder::After;
            }
        }
        i += 1;
    }
    if i < y.len() {
        assert(a@.len() != b@.len());
        TextOrder::Before
    } else if i < x.len() {
        assert(a@.len() != b@.len());
        TextOrder::After
    } else {
        assert(a@ =~= b@);
        TextOrder::Same
    }
}

proof fn lemma_lt_from_irreflexive(a: Seq<char>, i: int)
    requires
        0 <= i,
    ensures
        !lt_from(a, a, i),
    decreases a.len() - i,
{
    if i < a.len() {
        lemma_lt_from_irreflexive(a, i + 1);
    }
}

proof fn lemma_lt_from_transitive(a: Seq<char>, b: Seq<char>, c: Seq<char>, i: int)
    requires
        0 <= i,
        lt_from(a, b, i),
        lt_from(b, c, i),
    ensures
        lt_from(a, c, i),
    decreases a.len() - i,
{
    if i < a.len() && i < b.len() && i < c.len() && a[i] == b[i] && b[i] == c[i] {
        lemma_lt_from_transitive(a, b, c, i + 1);
    }
}

proof fn lemma_lt_from_total(a: Seq<char>, b: Seq<char>, i: int)
    requires
        0 <= i <= a.len(),
        i <= b.len(),
        !lt_from(a, b, i),
        !lt_from(b, a, i),
    ensures
        a.skip(i) == b.skip(i),
    decreases a.len() - i,
{
    if i < a.len() && i < b.len() {
        assert(a[i] == b[i]);
        lemma_lt_from_total(a, b, i + 1);
        assert(a.skip(i + 1).len() == b.skip(i + 1).len());
        assert(a.len() == b.len());
        assert forall|k: int| 0 <= k < a.skip(i).len() implies a.skip(i)[k] == b.skip(i)[k] by {
            if k > 0 {
                assert(a.skip(i + 1)[k - 1] == a[i + k]);
                assert(b.skip(i + 1)[k - 1] == b[i + k]);
            }
        }
        assert(a.skip(i + 1).len() == b.skip(i + 1).len());
        assert(a.skip(i) =~= b.skip(i));
    } else {
        assert(a.skip(i) =~= b.skip(i));
    }
}

/// No text comes before itself.
pub proof fn lemma_text_lt_irreflexive(a: Seq<char>)
    ensures
        !text_lt(a, a),
{
    lemma_lt_from_irreflexive(a, 0);
}

/// The order on texts is transitive.
pub proof fn lemma_text_lt_transitive(a: Seq<char>, b: Seq<char>, c: Seq<char>)
    requires
        text_lt(a, b),
        text_lt(b, c),
    ensures
        text_lt(a, c),
{
    lemma_lt_from_transitive(a, b, c, 0);
}

/// Of two different texts one comes before the other.
pub proof fn lemma_text_lt_total(a: Seq<char>, b: Seq<char>)
    ensures
        a == b || text_lt(a, b) || text_lt(b, a),
{
    if !text_lt(a, b) && !text_lt(b, a) {
        lemma_lt_from_total(a, b, 0);
        assert(a.skip(0) =~= a);
        assert(b.skip(0) =~= b);
    }
}

/// No two texts come before each other.
pub proof fn lemma_text_lt_asymmetric(a: Seq<char>, b: Seq<char>)
    requires
        text_lt(a, b),
    ensures
        !text_lt(b, a),
{
    if text_lt(b, a) {
        lemma_text_lt_transitive(a, b, a);
        lemma_text_lt_irreflexive(a);
    }
}

/// Every text in the sequence comes before all that follow it.
pub open spec fn strictly_sorted(keys: Seq<Seq<char>>) -> bool {
    forall|i: int, j: int| 0 <= i < j < keys.len() ==> text_lt(#[trigger] keys[i], #[trigger] keys[j])
}

/// No text occurs twice in the sequence.
pub open spec fn distinct(keys: Seq<Seq<char>>) -> bool {
    forall|i: int, j: int| 0 <= i < j < keys.len() ==> #[trigger] keys[i] != #[trigger] keys[j]
}

/// Two strictly sorted sequences that hold the same texts are the same
/// sequence: the order leaves no freedom.
pub proof fn lemma_strictly_sorted_unique(x: Seq<Seq<char>>, y: Seq<Seq<char>>)
    requires
        strictly_sorted(x),
        strictly_sorted(y),
        forall|k: Seq<char>| x.contains(k) <==> y.contains(k),
    ensures
        x == y,
    decreases x.len(),
{
    if x.len() == 0 {
        if y.len() > 0 {
            assert(y.contains(y[0]));
            assert(x.contains(y[0]));
        }
        assert(x =~= y);
    } else {
        let xl = x.last();
        assert(x.contains(xl));
        assert(y.contains(xl));
        assert(y.len() > 0);
        let yl = y.last();
        assert(y.contains(yl));
        assert(x.contains(yl));
        let i = choose|i: int| 0 <= i < x.len() && x[i] == yl;
        let j = choose|j: int| 0 <= j < y.len() && y[j] == xl;
        // yl == x[i] is not after xl, and xl == y[j] is not after yl.
        if i < x.len() - 1 {
            assert(text_lt(x[i], x[x.len() - 1]));
        }
        if j < y.len() - 1 {
            assert(text_lt(y[j], y[y.len() - 1]));
        }
        if xl != yl {
            assert(text_lt(yl, xl));
            assert(text_lt(xl, yl));
            lemma_text_lt_asymmetric(xl, yl);
        }
        assert(xl == yl);
        let xs = x.drop_last();
        let ys = y.drop_last();
        lemma_text_lt_irreflexive(xl);
        assert forall|k: Seq<char>| xs.contains(k) <==> ys.contains(k) by {
            if xs.contains(k) {
                let p = choose|p: int| 0 <= p < xs.len() && xs[p] == k;
                assert(x[p] == k);
                assert(text_lt(x[p], x[x.len() - 1]));
                assert(x.contains(k));
                assert(y.contains(k));
                let q = choose|q: int| 0 <= q < y.len() && y[q] == k;
                assert(q < y.len() - 1);
                assert(ys[q] == k);
            }
            if ys.contains(k) {
                let p = choose|p: int| 0 <= p < ys.len() && ys[p] == k;
                assert(y[p] == k);
                assert(text_lt(y[p], y[y.len() - 1]));
                assert(y.contains(k));
                assert(x.contains(k));
                let q = choose|q: int| 0 <= q < x.len() && x[q] == k;
                assert(q < x.len() - 1);
                assert(xs[q] == k);
            }
        }
        assert(strictly_sorted(xs)) by {
            assert forall|i: int, j: int| 0 <= i < j < xs.len() implies text_lt(
                #[trigger] xs[i],
                #[trigger] xs[j],
            ) by {
                assert(text_lt(x[i], x[j]));
            }
        }
        assert(strictly_sorted(ys)) by {
            assert forall|i: int, j: int| 0 <= i < j < ys.len() implies text_lt(
                #[trigger] ys[i],
                #[trigger] ys[j],
            ) by {
                assert(text_lt(y[i], y[j]));
            }
        }
        lemma_strictly_sorted_unique(xs, ys);
        assert(x =~= xs.push(xl));
        assert(y =~= ys.push(yl));
    }
}

/// Position `i` holds a text that occurs again later, and no position
/// before it does.
pub open spec fn first_repeat_at(keys: Seq<Seq<char>>, i: int) -> bool {
    &&& 0 <= i < keys.len()
    &&& exists|j: int| i < j < keys.len() && #[trigger] keys[j] == keys[i]
    &&& forall|a: int, b: int|
        0 <= a < i && a < b < keys.len() ==> #[trigger] keys[a] != #[trigger] keys[b]
}

/// The first position that holds a text which occurs again later, where
/// there is one.
pub open spec fn first_repeat(keys: Seq<Seq<char>>) -> int {
    choose|i: int| first_repeat_at(keys, i)
}

/// There is at most one first repeat, and none where the texts are distinct.
pub proof fn lemma_first_repeat(keys: Seq<Seq<char>>, i: int)
    requires
        first_repeat_at(keys, i),
    ensures
        !distinct(keys),
        first_repeat(keys) == i,
{
    let j = choose|j: int| i < j < keys.len() && #[trigger] keys[j] == keys[i];
    assert(keys[i] == keys[j]);
    let other = first_repeat(keys);
    assert(first_repeat_at(keys, other));
    let k = choose|k: int| other < k < keys.len() && #[trigger] keys[k] == keys[other];
    if other < i {
        assert(keys[other] != keys[k]);
    }
    if i < other {
        assert(keys[i] != keys[j]);
    }
}

/// Looks for a text that occurs twice.
pub fn find_repeat(keys: &Vec<String>) -> (r: Option<usize>)
    ensures
        match r {
            Some(i) => first_repeat_at(texts(keys@), i as int),
            None => distinct(texts(keys@)),
        },
{
    let n = keys.len();
    let mut i: usize = 0;
    while i < n
        invariant
            i <= n,
            n == keys.len(),
            forall|a: int, b: int|
                0 <= a < i && a < b < n ==> #[trigger] texts(keys@)[a] != #[trigger] texts(
                    keys@,
                )[b],
        decreases n - i,
    {
        let mut j: usize = i + 1;
        while j < n
            invariant
                i < j <= n,
                n == keys.len(),
                forall|a: int, b: int|
                    0 <= a < i && a < b < n ==> #[trigger] texts(keys@)[a] != #[trigger] texts(
                        keys@,
                    )[b],
                forall|b: int| i < b < j ==> #[trigger] texts(keys@)[b] != texts(keys@)[i as int],
            decreases n - j,
        {
            if keys[i] == keys[j] {
                assert(texts(keys@)[j as int] == texts(keys@)[i as int]);
                return Some(i);
            }
            j += 1;
        }
        i += 1;
    }
    None
}

/// The texts of `s`, each once, in the order in which they first come.
pub open spec fn once(s: Seq<Seq<char>>) -> Seq<Seq<char>>
    decreases s.len(),
{
    if s.len() == 0 {
        Seq::empty()
    } else if once(s.drop_last()).contains(s.last()) {
        once(s.drop_last())
    } else {
        once(s.drop_last()).push(s.last())
    }
}

/// Taking each text once leaves no text twice and loses none.
pub proof fn lemma_once(s: Seq<Seq<char>>)
    ensures
        distinct(once(s)),
        forall|t: Seq<char>| once(s).contains(t) <==> s.contains(t),
    decreases s.len(),
{
    if s.len() > 0 {
        let init = s.drop_last();
        let last = s.last();
        lemma_once(init);
        let d = once(init);
        assert forall|t: Seq<char>| once(s).contains(t) <==> s.contains(t) by {
            if once(s).contains(t) {
                let m = choose|m: int| 0 <= m < once(s).len() && once(s)[m] == t;
                if m < d.len() {
                    assert(d[m] == t);
                    assert(d.contains(t));
                    assert(init.contains(t));
                    let x = choose|x: int| 0 <= x < init.len() && init[x] == t;
                    assert(s[x] == t);
                } else {
                    assert(s[s.len() - 1] == t);
                }
            }
            if s.contains(t) {
                let x = choose|x: int| 0 <= x < s.len() && s[x] == t;
                if x < init.len() {
                    assert(init[x] == t);
                    assert(init.contains(t));
                    assert(d.contains(t));
                    let m = choose|m: int| 0 <= m < d.len() && d[m] == t;
                    assert(once(s)[m] == t);
                } else if d.contains(last) {
                } else {
                    assert(once(s)[d.len() as int] == t);
                }
            }
        }
        if !d.contains(last) {
            assert forall|a: int, b: int| 0 <= a < b < once(s).len() implies #[trigger] once(s)[a]
                != #[trigger] once(s)[b] by {
                if b < d.len() {
                    assert(d[a] != d[b]);
                } else {
                    if d[a] == last {
                        assert(d.contains(last));
                    }
                }
            }
        }
    }
}

/// Whether `k` stands somewhere in `order`.
pub open spec fn lists(order: Seq<int>, k: int) -> bool {
    exists|i: int| 0 <= i < order.len() && #[trigger] order[i] == k
}

/// `order` lists every position of `keys` once, in an order in which the
/// texts never step back; positions that hold the same text keep their
/// order.
pub open spec fn sorts(order: Seq<int>, keys: Seq<Seq<char>>) -> bool {
    &&& order.len() == keys.len()
    &&& forall|i: int| 0 <= i < order.len() ==> 0 <= #[trigger] order[i] < keys.len()
    &&& forall|i: int, j: int|
        0 <= i < j < order.len() ==> #[trigger] order[i] != #[trigger] order[j]
    &&& forall|k: int| 0 <= k < keys.len() ==> #[trigger] lists(order, k)
    &&& forall|i: int, j: int|
        0 <= i < j < order.len() ==> !text_lt(
            keys[#[trigger] order[j]],
            keys[#[trigger] order[i]],
        )
    &&& forall|i: int, j: int|
        0 <= i < j < order.len() && keys[#[trigger] order[i]] == keys[#[trigger] order[j]]
            ==> order[i] < order[j]
}

/// Where the text `key` goes into `order`: behind the last position, at or
/// before `from`, whose text does not come after it.
pub open spec fn insertion_point(
    order: Seq<int>,
    keys: Seq<Seq<char>>,
    key: Seq<char>,
    from: int,
) -> int
    decreases from,
{
    if 0 < from <= order.len() && text_lt(key, keys[order[from - 1]]) {
        insertion_point(order, keys, key, from - 1)
    } else {
        from
    }
}

/// The positions of `keys` in sorted order: each position in turn is put
/// behind those before it that do not come after it.
pub open spec fn sorted_order(keys: Seq<Seq<char>>) -> Seq<int>
    decreases keys.len(),
{
    if keys.len() == 0 {
        Seq::<int>::empty()
    } else {
        let order = sorted_order(keys.drop_last());
        order.insert(insertion_point(order, keys, keys.last(), order.len() as int), keys.len() - 1)
    }
}

/// The positions held in a vector, as integers.
pub open spec fn indices(order: Seq<usize>) -> Seq<int> {
    Seq::new(order.len(), |i: int| order[i] as int)
}

/// Putting the last position of `keys` into an order of the positions before
/// it, behind everything that does not come after it, sorts `keys`.
proof fn lemma_insert_sorts(order: Seq<int>, keys: Seq<Seq<char>>, p: int)
    requires
        keys.len() >= 1,
        sorts(order, keys.drop_last()),
        0 <= p <= order.len(),
        forall|j: int| p <= j < order.len() ==> text_lt(keys.last(), keys[#[trigger] order[j]]),
        p == 0 || !text_lt(keys.last(), keys[order[p - 1]]),
    ensures
        sorts(order.insert(p, keys.len() - 1), keys),
{
    let k = keys.len() - 1;
    let head = keys.drop_last();
    let after = order.insert(p, k);
    assert forall|i: int| 0 <= i < order.len() implies head[#[trigger] order[i]] == keys[order[i]] by {}
    assert forall|i: int| 0 <= i < after.len() implies 0 <= #[trigger] after[i] < keys.len() by {
        if i < p {
            assert(after[i] == order[i]);
        } else if i > p {
            assert(after[i] == order[i - 1]);
        }
    }
    assert forall|i: int, j: int| 0 <= i < j < after.len() implies #[trigger] after[i]
        != #[trigger] after[j] by {
        let a = if i < p {
            i
        } else {
            i - 1
        };
        let b = if j < p {
            j
        } else {
            j - 1
        };
        if i != p && j != p {
            assert(order[a] != order[b]);
        } else if i == p {
            assert(after[j] == order[b]);
        } else {
            assert(after[i] == order[a]);
        }
    }
    assert forall|x: int| 0 <= x < keys.len() implies #[trigger] lists(after, x) by {
        if x == k {
            assert(after[p] == x);
        } else {
            assert(lists(order, x));
            let i = choose|i: int| 0 <= i < order.len() && #[trigger] order[i] == x;
            if i < p {
                assert(after[i] == x);
            } else {
                assert(after[i + 1] == x);
            }
        }
    }
    assert forall|i: int, j: int| 0 <= i < j < after.len() implies !text_lt(
        keys[#[trigger] after[j]],
        keys[#[trigger] after[i]],
    ) by {
        let a = if i < p {
            i
        } else {
            i - 1
        };
        let b = if j < p {
            j
        } else {
            j - 1
        };
        if i != p && j != p {
            assert(!text_lt(head[order[b]], head[order[a]]));
        } else if i == p {
            assert(after[j] == order[b]);
            assert(text_lt(keys[k], keys[order[b]]));
            lemma_text_lt_asymmetric(keys[k], keys[order[b]]);
        } else {
            assert(after[i] == order[a]);
            // order[a] is not after order[p - 1], which is not after the new one
            let low = keys[order[a]];
            let mid = keys[order[p - 1]];
            if text_lt(keys[k], low) {
                if a < p - 1 {
                    assert(!text_lt(head[order[p - 1]], head[order[a]]));
                }
                lemma_text_lt_total(mid, keys[k]);
                if mid != keys[k] {
                    lemma_text_lt_transitive(mid, keys[k], low);
                }
                lemma_text_lt_irreflexive(mid);
            }
        }
    }
    assert forall|i: int, j: int|
        0 <= i < j < after.len() && keys[#[trigger] after[i]] == keys[#[trigger] after[j]] implies after[i]
        < after[j] by {
        let a = if i < p {
            i
        } else {
            i - 1
        };
        let b = if j < p {
            j
        } else {
            j - 1
        };
        if i != p && j != p {
            assert(head[order[a]] == head[order[b]]);
            assert(order[a] < order[b]);
        } else if i == p {
            assert(after[j] == order[b]);
            assert(text_lt(keys[k], keys[order[b]]));
            lemma_text_lt_irreflexive(keys[k]);
        } else {
            assert(after[i] == order[a]);
        }
    }
}

proof fn lemma_insertion_point(order: Seq<int>, keys: Seq<Seq<char>>, from: int)
    requires
        keys.len() >= 1,
        sorts(order, keys.drop_last()),
        0 <= from <= order.len(),
        forall|j: int| from <= j < order.len() ==> text_lt(keys.last(), keys[#[trigger] order[j]]),
    ensures
        ({
            let p = insertion_point(order, keys, keys.last(), from);
            &&& 0 <= p <= from
            &&& forall|j: int|
                p <= j < order.len() ==> text_lt(keys.last(), keys[#[trigger] order[j]])
            &&& p == 0 || !text_lt(keys.last(), keys[order[p - 1]])
        }),
    decreases from,
{
    if from > 0 && text_lt(keys.last(), keys[order[from - 1]]) {
        lemma_insertion_point(order, keys, from - 1);
    }
}

/// The sorted order of a sequence of texts sorts it.
pub proof fn lemma_sorted_order_sorts(keys: Seq<Seq<char>>)
    ensures
        sorts(sorted_order(keys), keys),
    decreases keys.len(),
{
    if keys.len() == 0 {
        assert(sorts(Seq::<int>::empty(), keys));
    } else {
        lemma_sorted_order_sorts(keys.drop_last());
        let order = sorted_order(keys.drop_last());
        lemma_insertion_point(order, keys, order.len() as int);
        let p = insertion_point(order, keys, keys.last(), order.len() as int);
        lemma_insert_sorts(order, keys, p);
    }
}

/// The texts of `keys`, walked in `order`.
pub open spec fn in_order(keys: Seq<Seq<char>>, order: Seq<int>) -> Seq<Seq<char>> {
    Seq::new(order.len(), |i: int| keys[order[i]])
}

/// Distinct texts, walked in sorted order, are strictly sorted, and they are
/// the same texts.
pub proof fn lemma_sorted_walk(keys: Seq<Seq<char>>, order: Seq<int>)
    requires
        distinct(keys),
        sorts(order, keys),
    ensures
        strictly_sorted(in_order(keys, order)),
        forall|x: Seq<char>| in_order(keys, order).contains(x) <==> keys.contains(x),
{
    let walk = in_order(keys, order);
    assert forall|i: int, j: int| 0 <= i < j < walk.len() implies text_lt(
        #[trigger] walk[i],
        #[trigger] walk[j],
    ) by {
        assert(order[i] != order[j]);
        assert(!text_lt(keys[order[j]], keys[order[i]]));
        if order[i] < order[j] {
            assert(keys[order[i]] != keys[order[j]]);
        } else {
            assert(keys[order[j]] != keys[order[i]]);
        }
        lemma_text_lt_total(walk[i], walk[j]);
    }
    assert forall|x: Seq<char>| walk.contains(x) <==> keys.contains(x) by {
        if walk.contains(x) {
            let i = choose|i: int| 0 <= i < walk.len() && walk[i] == x;
            assert(keys[order[i]] == x);
        }
        if keys.contains(x) {
            let k = choose|k: int| 0 <= k < keys.len() && keys[k] == x;
            assert(lists(order, k));
            let i = choose|i: int| 0 <= i < order.len() && #[trigger] order[i] == k;
            assert(walk[i] == x);
        }
    }
}

/// Distinct texts can be sorted in one way only.
pub proof fn lemma_sorts_unique(keys: Seq<Seq<char>>, a: Seq<int>, b: Seq<int>)
    requires
        distinct(keys),
        sorts(a, keys),
        sorts(b, keys),
    ensures
        a == b,
{
    lemma_sorted_walk(keys, a);
    lemma_sorted_walk(keys, b);
    assert forall|x: Seq<char>| in_order(keys, a).contains(x) <==> in_order(keys, b).contains(
        x,
    ) by {
        assert(in_order(keys, a).contains(x) <==> keys.contains(x));
        assert(in_order(keys, b).contains(x) <==> keys.contains(x));
    }
    lemma_strictly_sorted_unique(in_order(keys, a), in_order(keys, b));
    assert forall|i: int| 0 <= i < a.len() implies a[i] == b[i] by {
        assert(in_order(keys, a)[i] == in_order(keys, b)[i]);
        assert(keys[a[i]] == keys[b[i]]);
        if a[i] < b[i] {
            assert(keys[a[i]] != keys[b[i]]);
        }
        if b[i] < a[i] {
            assert(keys[b[i]] != keys[a[i]]);
        }
    }
    assert(a =~= b);
}

/// Sorts the positions of `keys` by the texts they hold.
pub fn sort_order(keys: &Vec<String>) -> (order: Vec<usize>)
    ensures
        indices(order@) == sorted_order(texts(keys@)),
        sorts(indices(order@), texts(keys@)),
{
    let mut order: Vec<usize> = Vec::new();
    let mut k: usize = 0;
    assert(indices(order@) =~= sorted_order(texts(keys@).take(0)));
    while k < keys.len()
        invariant
            k <= keys.len(),
            order.len() == k,
            indices(order@) == sorted_order(texts(keys@).take(k as int)),
        decreases keys.len() - k,
    {
        let ghost now = texts(keys@).take(k + 1);
        let ghost before = indices(order@);
        proof {
            assert(now.drop_last() =~= texts(keys@).take(k as int));
            assert(now.last() == keys@[k as int]@);
            lemma_sorted_order_sorts(now.drop_last());
        }
        let mut p: usize = order.len();
        let mut searching = true;
        while searching && p > 0
            invariant
                p <= order.len(),
                k < keys.len(),
                order.len() == k,
                before == indices(order@),
                now == texts(keys@).take(k + 1),
                sorts(before, now.drop_last()),
                insertion_point(before, now, now.last(), before.len() as int) == insertion_point(
                    before,
                    now,
                    now.last(),
                    p as int,
                ),
                !searching ==> insertion_point(before, now, now.last(), p as int) == p,
            decreases p + (if searching { 1int } else { 0int }),
        {
            assert(0 <= before[p - 1] < k);
            match compare_text(keys[k].as_str(), keys[order[p - 1]].as_str()) {
                TextOrder::Before => {
                    p -= 1;
                },
                _ => {
                    searching = false;
                },
            }
        }
        order.insert(p, k);
        proof {
            assert(indices(order@) =~= before.insert(p as int, k as int));
        }
        k += 1;
    }
    proof {
        assert(texts(keys@).take(keys.len() as int) =~= texts(keys@));
        lemma_sorted_order_sorts(texts(keys@));
    }
    order
}

/// The pieces of `s` between occurrences of `sep`. There is always at least
/// one piece; a piece is empty where two separators touch or where the text
/// begins or ends with one.
pub open spec fn split(s: Seq<char>, sep: char) -> Seq<Seq<char>>
    decreases s.len(),
{
    if s.len() == 0 {
        seq![Seq::<char>::empty()]
    } else {
        let before = split(s.drop_last(), sep);
        if s.last() == sep {
            before.push(Seq::<char>::empty())
        } else {
            before.drop_last().push(before.last().push(s.last()))
        }
    }
}

/// The pieces put together with `sep` between neighbours.
pub open spec fn join(parts: Seq<Seq<char>>, sep: Seq<char>) -> Seq<char>
    decreases parts.len(),
{
    if parts.len() == 0 {
        Seq::<char>::empty()
    } else if parts.len() == 1 {
        parts[0]
    } else {
        join(parts.drop_last(), sep) + sep + parts.last()
    }
}

/// The separator occurs in none of the pieces.
pub open spec fn free_of(parts: Seq<Seq<char>>, sep: char) -> bool {
    forall|i: int, k: int|
        0 <= i < parts.len() && 0 <= k < parts[i].len() ==> #[trigger] parts[i][k] != sep
}

/// Splitting gives at least one piece, and no piece holds the separator.
pub proof fn lemma_split_pieces(s: Seq<char>, sep: char)
    ensures
        split(s, sep).len() >= 1,
        free_of(split(s, sep), sep),
    decreases s.len(),
{
    if s.len() > 0 {
        lemma_split_pieces(s.drop_last(), sep);
    }
}

/// Joining the pieces of a text with the separator gives the text back.
pub proof fn lemma_join_split(s: Seq<char>, sep: char)
    ensures
        join(split(s, sep), seq![sep]) == s,
    decreases s.len(),
{
    if s.len() == 0 {
        assert(join(split(s, sep), seq![sep]) =~= s);
    } else {
        let head = s.drop_last();
        let before = split(head, sep);
        lemma_split_pieces(head, sep);
        lemma_join_split(head, sep);
        let c = s.last();
        assert(s =~= head.push(c));
        if c == sep {
            let now = before.push(Seq::<char>::empty());
            assert(now.drop_last() =~= before);
            assert(join(now, seq![sep]) =~= head.push(c));
        } else {
            let now = before.drop_last().push(before.last().push(c));
            assert(now.drop_last() =~= before.drop_last());
            if before.len() == 1 {
                assert(join(now, seq![sep]) =~= head.push(c));
            } else {
                assert(join(before, seq![sep]) == join(before.drop_last(), seq![sep]) + seq![sep]
                    + before.last());
                assert(join(now, seq![sep]) =~= head.push(c));
            }
        }
    }
}

proof fn lemma_split_append(a: Seq<char>, b: Seq<char>, sep: char)
    requires
        forall|k: int| 0 <= k < b.len() ==> b[k] != sep,
    ensures
        split(a + b, sep) == split(a, sep).drop_last().push(split(a, sep).last() + b),
    decreases b.len(),
{
    lemma_split_pieces(a, sep);
    if b.len() == 0 {
        assert(a + b =~= a);
        assert(split(a, sep).last() + b =~= split(a, sep).last());
        assert(split(a, sep).drop_last().push(split(a, sep).last()) =~= split(a, sep));
    } else {
        let b0 = b.drop_last();
        lemma_split_append(a, b0, sep);
        assert((a + b).drop_last() =~= a + b0);
        assert((a + b).last() == b.last());
        let before = split(a + b0, sep);
        assert(before.drop_last() =~= split(a, sep).drop_last());
        assert(before.last().push(b.last()) =~= split(a, sep).last() + b);
    }
}

/// Splitting what was joined gives the pieces back, where there is at least
/// one piece and none holds the separator.
pub proof fn lemma_split_join(parts: Seq<Seq<char>>, sep: char)
    requires
        parts.len() >= 1,
        free_of(parts, sep),
    ensures
        split(join(parts, seq![sep]), sep) == parts,
    decreases parts.len(),
{
    let last = parts.last();
    assert forall|k: int| 0 <= k < last.len() implies last[k] != sep by {
        assert(parts[parts.len() - 1][k] != sep);
    }
    if parts.len() == 1 {
        lemma_split_append(Seq::<char>::empty(), last, sep);
        assert(Seq::<char>::empty() + last =~= last);
        assert(split(Seq::<char>::empty(), sep) =~= seq![Seq::<char>::empty()]);
        assert(split(join(parts, seq![sep]), sep) =~= parts);
    } else {
        let init = parts.drop_last();
        assert(free_of(init, sep)) by {
            assert forall|i: int, k: int|
                0 <= i < init.len() && 0 <= k < init[i].len() implies #[trigger] init[i][k]
                != sep by {
                assert(parts[i][k] != sep);
            }
        }
        lemma_split_join(init, sep);
        let head = join(init, seq![sep]) + seq![sep];
        assert(head.drop_last() =~= join(init, seq![sep]));
        assert(head.last() == sep);
        assert(split(head, sep) == init.push(Seq::<char>::empty()));
        lemma_split_append(head, last, sep);
        assert(split(head, sep).drop_last() =~= init);
        assert(split(head, sep).last() + last =~= last);
        assert(init.push(last) =~= parts);
    }
}

/// Joining is one-to-one on sequences of pieces that do not hold the
/// separator.
pub proof fn lemma_join_injective(a: Seq<Seq<char>>, b: Seq<Seq<char>>, sep: char)
    requires
        a.len() >= 1,
        b.len() >= 1,
        free_of(a, sep),
        free_of(b, sep),
        join(a, seq![sep]) == join(b, seq![sep]),
    ensures
        a == b,
{
    lemma_split_join(a, sep);
    lemma_split_join(b, sep);
}

/// The pieces that are not empty, in order.
pub open spec fn filled(parts: Seq<Seq<char>>) -> Seq<Seq<char>>
    decreases parts.len(),
{
    if parts.len() == 0 {
        Seq::empty()
    } else if parts.last().len() == 0 {
        filled(parts.drop_last())
    } else {
        filled(parts.drop_last()).push(parts.last())
    }
}

/// Leaving out the empty pieces leaves no empty piece, and brings the
/// separator into none.
pub proof fn lemma_filled(parts: Seq<Seq<char>>, sep: char)
    requires
        free_of(parts, sep),
    ensures
        free_of(filled(parts), sep),
        forall|i: int| 0 <= i < filled(parts).len() ==> (#[trigger] filled(parts)[i]).len() > 0,
    decreases parts.len(),
{
    if parts.len() > 0 {
        let init = parts.drop_last();
        assert(free_of(init, sep)) by {
            assert forall|i: int, k: int|
                0 <= i < init.len() && 0 <= k < init[i].len() implies #[trigger] init[i][k]
                != sep by {
                assert(parts[i][k] != sep);
            }
        }
        lemma_filled(init, sep);
        let kept = filled(parts);
        assert forall|i: int, k: int|
            0 <= i < kept.len() && 0 <= k < kept[i].len() implies #[trigger] kept[i][k] != sep by {
            if i < filled(init).len() {
                assert(kept[i] == filled(init)[i]);
                assert(filled(init)[i][k] != sep);
            } else {
                assert(kept[i] == parts[parts.len() - 1]);
                assert(parts[parts.len() - 1][k] != sep);
            }
        }
        assert forall|i: int| 0 <= i < kept.len() implies (#[trigger] kept[i]).len() > 0 by {
            if i < filled(init).len() {
                assert(kept[i] == filled(init)[i]);
            }
        }
    }
}

/// Leaves out the empty pieces.
pub fn filled_texts(parts: &Vec<String>) -> (kept: Vec<String>)
    ensures
        texts(kept@) == filled(texts(parts@)),
{
    let mut kept: Vec<String> = Vec::new();
    let mut i: usize = 0;
    assert(texts(parts@).take(0) =~= Seq::<Seq<char>>::empty());
    assert(texts(kept@) =~= filled(texts(parts@).take(0)));
    while i < parts.len()
        invariant
            i <= parts.len(),
            texts(kept@) == filled(texts(parts@).take(i as int)),
        decreases parts.len() - i,
    {
        let ghost before = texts(kept@);
        proof {
            assert(texts(parts@).take(i + 1).drop_last() =~= texts(parts@).take(i as int));
            assert(texts(parts@).take(i + 1).last() == parts@[i as int]@);
        }
        if !parts[i].as_str().is_empty() {
            let piece = parts[i].clone();
            kept.push(piece);
            assert(texts(kept@) =~= before.push(piece@));
        }
        i += 1;
    }
    assert(texts(parts@).take(parts.len() as int) =~= texts(parts@));
    kept
}

/// Splits a text at every occurrence of `sep`.
pub fn split_text(s: &str, sep: char) -> (parts: Vec<String>)
    ensures
        texts(parts@) == split(s@, sep),
{
    let chars = chars_of(s);
    let n = chars.len();
    let mut parts: Vec<String> = Vec::new();
    let mut start: usize = 0;
    let mut i: usize = 0;
    assert(s@.take(0) =~= Seq::<char>::empty());
    assert(texts(parts@).push(s@.subrange(0, 0)) =~= split(s@.take(0), sep));
    while i < n
        invariant
            start <= i <= n,
            n == chars.len(),
            chars@ == s@,
            texts(parts@).push(s@.subrange(start as int, i as int)) == split(
                s@.take(i as int),
                sep,
            ),
        decreases n - i,
    {
        let ghost before = split(s@.take(i as int), sep);
        proof {
            assert(s@.take(i + 1).drop_last() =~= s@.take(i as int));
            assert(s@.take(i + 1).last() == s@[i as int]);
        }
        if chars[i] == sep {
            let piece = s.substring_char(start, i).to_owned();
            let ghost old_parts = parts@;
            parts.push(piece);
            start = i + 1;
            proof {
                assert(texts(parts@) =~= texts(old_parts).push(piece@));
                assert(s@.subrange(i + 1, i + 1) =~= Seq::<char>::empty());
                assert(texts(parts@).push(s@.subrange(i + 1, i + 1)) =~= before.push(
                    Seq::<char>::empty(),
                ));
            }
        } else {
            proof {
                assert(before.drop_last() =~= texts(parts@));
                assert(before.last().push(s@[i as int]) =~= s@.subrange(start as int, i + 1));
            }
        }
        i += 1;
    }
    let piece = s.substring_char(start, n).to_owned();
    let ghost old_parts = parts@;
    parts.push(piece);
    proof {
        assert(s@.take(n as int) =~= s@);
        assert(texts(parts@) =~= texts(old_parts).push(piece@));
    }
    parts
}

/// Puts the pieces together with `sep` between neighbours.
pub fn join_texts(parts: &Vec<String>, sep: &str) -> (s: String)
    ensures
        s@ == join(texts(parts@), sep@),
{
    let mut s = String::new();
    let mut i: usize = 0;
    while i < parts.len()
        invariant
            i <= parts.len(),
            s@ == join(texts(parts@).take(i as int), sep@),
        decreases parts.len() - i,
    {
        let ghost now = texts(parts@).take(i + 1);
        proof {
            assert(now.drop_last() =~= texts(parts@).take(i as int));
            assert(now.last() == parts@[i as int]@);
        }
        if i > 0 {
            s.append(sep);
        }
        s.append(parts[i].as_str());
        proof {
            if i == 0 {
                assert(s@ =~= now[0]);
            }
        }
        i += 1;
    }
    proof {
        assert(texts(parts@).take(parts.len() as int) =~= texts(parts@));
    }
    s
}

/// The text with `to` before every character and at the end.
pub open spec fn interleaved(s: Seq<char>, to: Seq<char>) -> Seq<char>
    decreases s.len(),
{
    if s.len() == 0 {
        to
    } else {
        interleaved(s.drop_last(), to) + seq![s.last()] + to
    }
}

/// The text with every occurrence of `from` replaced by `to`. Occurrences
/// are taken from the left and do not overlap. An empty `from` occurs
/// before every character and at the end.
pub open spec fn replaced(s: Seq<char>, from: Seq<char>, to: Seq<char>) -> Seq<char>
    decreases s.len(),
{
    if from.len() == 0 {
        interleaved(s, to)
    } else if s.len() < from.len() {
        s
    } else if s.take(from.len() as int) == from {
        to + replaced(s.skip(from.len() as int), from, to)
    } else {
        seq![s[0]] + replaced(s.skip(1), from, to)
    }
}

fn matches_at(text: &Vec<char>, pattern: &Vec<char>, at: usize) -> (r: bool)
    requires
        at + pattern.len() <= text.len(),
    ensures
        r == (text@.subrange(at as int, at + pattern.len()) == pattern@),
{
    let mut k: usize = 0;
    while k < pattern.len()
        invariant
            k <= pattern.len(),
            at + pattern.len() <= text.len(),
            forall|j: int| 0 <= j < k ==> text[at + j] == pattern[j],
        decreases pattern.len() - k,
    {
        if text[at + k] != pattern[k] {
            assert(text@.subrange(at as int, at + pattern.len())[k as int] != pattern@[k as int]);
            return false;
        }
        k += 1;
    }
    assert(text@.subrange(at as int, at + pattern.len()) =~= pattern@);
    true
}

/// Replaces every occurrence of `from` in `s` by `to`.
pub fn replace_text(s: &str, from: &str, to: &str) -> (r: String)
    ensures
        r@ == replaced(s@, from@, to@),
{
    let text = chars_of(s);
    let pattern = chars_of(from);
    let n = text.len();
    let m = pattern.len();
    if m == 0 {
        let mut out = to.to_owned();
        let mut i: usize = 0;
        assert(s@.take(0) =~= Seq::<char>::empty());
        while i < n
            invariant
                i <= n,
                n == s@.len(),
                from@.len() == 0,
                out@ == interleaved(s@.take(i as int), to@),
            decreases n - i,
        {
            proof {
                assert(s@.take(i + 1).drop_last() =~= s@.take(i as int));
                assert(s@.subrange(i as int, i + 1) =~= seq![s@.take(i + 1).last()]);
            }
            out.append(s.substring_char(i, i + 1));
            out.append(to);
            i += 1;
        }
        assert(s@.take(n as int) =~= s@);
        return out;
    }
    let mut out = String::new();
    let mut start: usize = 0;
    let mut i: usize = 0;
    proof {
        assert(s@.skip(0) =~= s@);
        assert(out@ + s@.subrange(0, 0) + replaced(s@, from@, to@) =~= replaced(s@, from@, to@));
    }
    while n - i >= m
        invariant
            start <= i <= n,
            n == text.len(),
            m == pattern.len(),
            m > 0,
            text@ == s@,
            pattern@ == from@,
            replaced(s@, from@, to@) == out@ + s@.subrange(start as int, i as int) + replaced(
                s@.skip(i as int),
                from@,
                to@,
            ),
        decreases n - i,
    {
        let ghost rest = s@.skip(i as int);
        proof {
            assert(rest.take(m as int) =~= s@.subrange(i as int, i + m));
        }
        if matches_at(&text, &pattern, i) {
            let ghost before = out@;
            out.append(s.substring_char(start, i));
            out.append(to);
            proof {
                assert(rest.skip(m as int) =~= s@.skip(i + m));
                assert(s@.subrange(i + m, i + m) =~= Seq::<char>::empty());
                assert(out@ + s@.subrange(i + m, i + m) + replaced(s@.skip(i + m), from@, to@)
                    =~= before + s@.subrange(start as int, i as int) + (to@ + replaced(
                    s@.skip(i + m),
                    from@,
                    to@,
                )));
            }
            i += m;
            start = i;
        } else {
            proof {
                assert(rest.skip(1) =~= s@.skip(i + 1));
                assert(out@ + s@.subrange(start as int, i + 1) + replaced(
                    s@.skip(i + 1),
                    from@,
                    to@,
                ) =~= out@ + s@.subrange(start as int, i as int) + (seq![rest[0]] + replaced(
                    s@.skip(i + 1),
                    from@,
                    to@,
                )));
            }
            i += 1;
        }
    }
    proof {
        assert(replaced(s@.skip(i as int), from@, to@) == s@.skip(i as int));
        assert(out@ + s@.subrange(start as int, n as int) =~= out@ + s@.subrange(
            start as int,
            i as int,
        ) + s@.skip(i as int));
    }
    out.append(s.substring_char(start, n));
    out
}

/// Whether a character is white space: whether it has the Unicode property
/// `White_Space`. These are the characters that have it.
pub open spec fn is_space(c: char) -> bool {
    let code = c as int;
    ||| 0x0009 <= code <= 0x000D
    ||| code == 0x0020
    ||| code == 0x0085
    ||| code == 0x00A0
    ||| code == 0x1680
    ||| 0x2000 <= code <= 0x200A
    ||| code == 0x2028
    ||| code == 0x2029
    ||| code == 0x202F
    ||| code == 0x205F
    ||| code == 0x3000
}

/// Calls `char::is_whitespace`, which tells whether the character has the
/// Unicode property `White_Space`. That these are the characters listed in
/// `is_space` is taken on trust.
#[verifier::external_body]
pub(crate) fn is_whitespace(c: char) -> (r: bool)
    ensures
        r == is_space(c),
{
    c.is_whitespace()
}

/// The number of runs of `false` in a sequence of flags.
pub open spec fn runs(gaps: Seq<bool>) -> nat
    decreases gaps.len(),
{
    if gaps.len() == 0 {
        0
    } else {
        let before = runs(gaps.drop_last());
        if !gaps.last() && (gaps.len() == 1 || gaps[gaps.len() - 2]) {
            before + 1
        } else {
            before
        }
    }
}

/// For each character, whether it is white space.
pub open spec fn gaps_of(s: Seq<char>) -> Seq<bool> {
    Seq::new(s.len(), |i: int| is_space(s[i]))
}

/// The number of words in a text: the runs of characters that are not
/// white space.
pub open spec fn word_count(s: Seq<char>) -> nat {
    runs(gaps_of(s))
}

proof fn lemma_one_run(gaps: Seq<bool>)
    requires
        gaps.len() > 0,
        forall|i: int| 0 <= i < gaps.len() ==> !gaps[i],
    ensures
        runs(gaps) == 1,
    decreases gaps.len(),
{
    if gaps.len() > 1 {
        lemma_one_run(gaps.drop_last());
    } else {
        assert(runs(gaps.drop_last()) == 0);
    }
}

/// A text that is not empty and holds no white space is one word.
pub proof fn lemma_one_word(s: Seq<char>)
    requires
        s.len() > 0,
        forall|i: int| 0 <= i < s.len() ==> !is_space(s[i]),
    ensures
        word_count(s) == 1,
{
    lemma_one_run(gaps_of(s));
}

/// Counts the runs of `false`.
pub fn count_runs(gaps: &Vec<bool>) -> (n: usize)
    ensures
        n == runs(gaps@),
{
    let mut n: usize = 0;
    let mut i: usize = 0;
    assert(gaps@.take(0) =~= Seq::<bool>::empty());
    while i < gaps.len()
        invariant
            i <= gaps.len(),
            n <= i,
            n == runs(gaps@.take(i as int)),
        decreases gaps.len() - i,
    {
        proof {
            assert(gaps@.take(i + 1).drop_last() =~= gaps@.take(i as int));
        }
        if !gaps[i] && (i == 0 || gaps[i - 1]) {
            n += 1;
        }
        i += 1;
    }
    assert(gaps@.take(gaps.len() as int) =~= gaps@);
    n
}

/// Counts the words of a text.
pub fn count_words(s: &str) -> (n: usize)
    ensures
        n == word_count(s@),
{
    let text = chars_of(s);
    let mut gaps: Vec<bool> = Vec::new();
    let mut i: usize = 0;
    while i < text.len()
        invariant
            i <= text.len(),
            text@ == s@,
            gaps@ == gaps_of(s@).take(i as int),
        decreases text.len() - i,
    {
        let gap = is_whitespace(text[i]);
        gaps.push(gap);
        assert(gaps@ =~= gaps_of(s@).take(i + 1));
        i += 1;
    }
    assert(gaps@ =~= gaps_of(s@));
    count_runs(&gaps)
}

/// The upper-case form of a text, as the standard library's Unicode case
/// mapping gives it.
pub uninterp spec fn uppercase(s: Seq<char>) -> Seq<char>;

/// The lower-case form of a text, as the standard library's Unicode case
/// mapping gives it.
pub uninterp spec fn lowercase(s: Seq<char>) -> Seq<char>;

/// Calls `str::to_uppercase`. Nothing is proved of the mapping: the result
/// is only given its name, so equal texts have equal upper-case forms.
#[verifier::external_body]
pub(crate) fn to_upper(s: &str) -> (r: String)
    ensures
        r@ == uppercase(s@),
{
    s.to_uppercase()
}

/// Calls `str::to_lowercase`. Nothing is proved of the mapping: the result
/// is only given its name, so equal texts have equal lower-case forms.
#[verifier::external_body]
pub(crate) fn to_lower(s: &str) -> (r: String)
    ensures
        r@ == lowercase(s@),
{
    s.to_lowercase()
}

/// The lower-case forms of the names.
pub open spec fn lowercased(names: Seq<Seq<char>>) -> Seq<Seq<char>> {
    Seq::new(names.len(), |i: int| lowercase(names[i]))
}

/// Names whose lower-case forms differ are different names.
pub proof fn lemma_lowercased_distinct(names: Seq<Seq<char>>)
    requires
        distinct(lowercased(names)),
    ensures
        distinct(names),
{
    assert forall|i: int, j: int| 0 <= i < j < names.len() implies #[trigger] names[i]
        != #[trigger] names[j] by {
        assert(lowercased(names)[i] != lowercased(names)[j]);
    }
}

/// The lower-case forms of the names.
pub fn lowercase_names(names: &Vec<String>) -> (lower: Vec<String>)
    ensures
        texts(lower@) == lowercased(texts(names@)),
        lower.len() == names.len(),
{
    let mut lower: Vec<String> = Vec::new();
    let mut i: usize = 0;
    while i < names.len()
        invariant
            i <= names.len(),
            lower.len() == i,
            texts(lower@) == lowercased(texts(names@)).take(i as int),
        decreases names.len() - i,
    {
        let ghost before = texts(lower@);
        let name = to_lower(names[i].as_str());
        lower.push(name);
        assert(texts(lower@) =~= before.push(name@));
        assert(texts(lower@) =~= lowercased(texts(names@)).take(i + 1));
        i += 1;
    }
    assert(texts(lower@) =~= lowercased(texts(names@)));
    lower
}

/// Whether no text occurs twice.
pub fn all_distinct(names: &Vec<String>) -> (unique: bool)
    ensures
        unique == distinct(texts(names@)),
{
    match find_repeat(names) {
        Some(i) => {
            proof {
                lemma_first_repeat(texts(names@), i as int);
            }
            false
        },
        None => true,
    }
}

/// Looks for a name whose lower-case form comes again: the first such name,
/// where there is one.
pub fn find_repeated_name(names: &Vec<String>) -> (r: Option<usize>)
    ensures
        match r {
            Some(i) => !distinct(lowercased(texts(names@))) && i < names.len() && i
                == first_repeat(lowercased(texts(names@))),
            None => distinct(lowercased(texts(names@))),
        },
{
    let lower = lowercase_names(names);
    match find_repeat(&lower) {
        Some(i) => {
            proof {
                lemma_first_repeat(texts(lower@), i as int);
            }
            Some(i)
        },
        None => None,
    }
}

} // verus!
