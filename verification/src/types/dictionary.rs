use vstd::prelude::*;
use vstd::utf8::{decode_utf8, encode_utf8};

use crate::types::object::{lemma_records_view, object_view, records_view, Object, ObjectModel};

verus! {

broadcast use vstd::utf8::group_utf8_lib;

/// A dictionary object: entries with name keys, kept in increasing order of
/// their keys' UTF-8 bytes, each key once.
#[derive(Debug, PartialEq)]
pub struct Dictionary {
    pub records: Vec<(String, Object)>,
}

/// Lexicographic order on byte strings (a proper prefix comes first).
pub open spec fn bytes_lt(a: Seq<u8>, b: Seq<u8>) -> bool
    decreases a.len(),
{
    if a.len() == 0 {
        b.len() > 0
    } else if b.len() == 0 {
        false
    } else if a[0] != b[0] {
        a[0] < b[0]
    } else {
        bytes_lt(a.drop_first(), b.drop_first())
    }
}

/// The order of dictionary keys: that of their UTF-8 bytes.
pub open spec fn key_lt(a: Seq<char>, b: Seq<char>) -> bool {
    bytes_lt(encode_utf8(a), encode_utf8(b))
}

/// The first position at or after `i` whose key does not come before `k`.
pub open spec fn pos_from<V>(rs: Seq<(Seq<char>, V)>, k: Seq<char>, i: int) -> int
    decreases rs.len() - i,
{
    if i < 0 || i >= rs.len() {
        rs.len() as int
    } else if key_lt(rs[i].0, k) {
        pos_from(rs, k, i + 1)
    } else {
        i
    }
}

/// Where an entry with key `k` goes.
pub open spec fn insert_pos<V>(rs: Seq<(Seq<char>, V)>, k: Seq<char>) -> int {
    pos_from(rs, k, 0)
}

/// The dictionary with `k` bound to `v`: an entry with key `k` has its value
/// replaced; otherwise the entry is added before the first key that does
/// not come before `k`.
pub open spec fn dict_insert<V>(rs: Seq<(Seq<char>, V)>, k: Seq<char>, v: V) -> Seq<(Seq<char>, V)> {
    let i = insert_pos(rs, k);
    if 0 <= i < rs.len() && rs[i].0 == k {
        rs.update(i, (k, v))
    } else {
        rs.insert(i, (k, v))
    }
}

/// The position of the first entry with key `k`, from `i` on.
pub open spec fn find_from<V>(rs: Seq<(Seq<char>, V)>, k: Seq<char>, i: int) -> int
    decreases rs.len() - i,
{
    if i < 0 || i >= rs.len() {
        rs.len() as int
    } else if rs[i].0 == k {
        i
    } else {
        find_from(rs, k, i + 1)
    }
}

/// The value bound to `k`.
pub open spec fn dict_get<V>(rs: Seq<(Seq<char>, V)>, k: Seq<char>) -> Option<V> {
    let i = find_from(rs, k, 0);
    if 0 <= i < rs.len() {
        Some(rs[i].1)
    } else {
        None
    }
}

/// No byte string comes before itself.
pub proof fn lemma_bytes_lt_irrefl(a: Seq<u8>)
    ensures
        !bytes_lt(a, a),
    decreases a.len(),
{
    if a.len() > 0 {
        lemma_bytes_lt_irrefl(a.drop_first());
    }
}

/// The entries from `i` up to the insertion point have keys before `k`.
pub proof fn lemma_pos_from<V>(rs: Seq<(Seq<char>, V)>, k: Seq<char>, i: int)
    requires
        0 <= i <= rs.len(),
    ensures
        i <= pos_from(rs, k, i) <= rs.len(),
        forall|j: int| i <= j < pos_from(rs, k, i) ==> #[trigger] key_lt(rs[j].0, k),
        pos_from(rs, k, i) < rs.len() ==> !key_lt(rs[pos_from(rs, k, i)].0, k),
    decreases rs.len() - i,
{
    if i < rs.len() && key_lt(rs[i].0, k) {
        lemma_pos_from(rs, k, i + 1);
    }
}

/// The first position from `i` on whose key is `k` is the one found.
pub proof fn lemma_find_first<V>(rs: Seq<(Seq<char>, V)>, k: Seq<char>, i: int, f: int)
    requires
        0 <= i <= f <= rs.len(),
        forall|j: int| i <= j < f ==> #[trigger] rs[j].0 != k,
        f < rs.len() ==> rs[f].0 == k,
    ensures
        find_from(rs, k, i) == f,
    decreases f - i,
{
    if i < f {
        lemma_find_first(rs, k, i + 1, f);
    }
}

/// What is found is the first position from `i` on whose key is `k`.
pub proof fn lemma_find_from<V>(rs: Seq<(Seq<char>, V)>, k: Seq<char>, i: int)
    requires
        0 <= i <= rs.len(),
    ensures
        i <= find_from(rs, k, i) <= rs.len(),
        forall|j: int| i <= j < find_from(rs, k, i) ==> #[trigger] rs[j].0 != k,
        find_from(rs, k, i) < rs.len() ==> rs[find_from(rs, k, i)].0 == k,
    decreases rs.len() - i,
{
    if i < rs.len() && rs[i].0 != k {
        lemma_find_from(rs, k, i + 1);
    }
}

/// Reading a key after binding it gives the value bound to it; every other
/// key keeps its value.
pub proof fn lemma_get_insert<V>(rs: Seq<(Seq<char>, V)>, k: Seq<char>, v: V, k2: Seq<char>)
    ensures
        dict_get(dict_insert(rs, k, v), k2) == if k2 == k {
            Some(v)
        } else {
            dict_get(rs, k2)
        },
{
    let i = insert_pos(rs, k);
    lemma_pos_from(rs, k, 0);
    lemma_bytes_lt_irrefl(encode_utf8(k));
    assert forall|j: int| 0 <= j < i implies #[trigger] rs[j].0 != k by {
        assert(key_lt(rs[j].0, k));
    }
    let n = dict_insert(rs, k, v);
    lemma_find_from(rs, k2, 0);
    let f = find_from(rs, k2, 0);
    if 0 <= i < rs.len() && rs[i].0 == k {
        assert(n == rs.update(i, (k, v)));
        if k2 == k {
            lemma_find_first(n, k2, 0, i);
        } else {
            assert forall|j: int| 0 <= j < f implies #[trigger] n[j].0 != k2 by {
                assert(rs[j].0 != k2);
            }
            lemma_find_first(n, k2, 0, f);
        }
    } else {
        assert(n == rs.insert(i, (k, v)));
        if k2 == k {
            lemma_find_first(n, k2, 0, i);
        } else if f < i {
            assert forall|j: int| 0 <= j < f implies #[trigger] n[j].0 != k2 by {
                assert(rs[j].0 != k2);
            }
            lemma_find_first(n, k2, 0, f);
        } else {
            assert forall|j: int| 0 <= j < f + 1 implies #[trigger] n[j].0 != k2 by {
                if j < i {
                    assert(rs[j].0 != k2);
                } else if j > i {
                    assert(n[j] == rs[j - 1]);
                    assert(rs[j - 1].0 != k2);
                }
            }
            if f < rs.len() {
                assert(n[f + 1] == rs[f]);
            }
            lemma_find_first(n, k2, 0, f + 1);
        }
    }
}

/// The entries `es` bound one after another on top of `rs`: a later entry
/// with a key replaces an earlier one.
pub open spec fn dict_insert_all<V>(rs: Seq<(Seq<char>, V)>, es: Seq<(Seq<char>, V)>) -> Seq<(Seq<char>, V)>
    decreases es.len(),
{
    if es.len() == 0 {
        rs
    } else {
        dict_insert(dict_insert_all(rs, es.drop_last()), es.last().0, es.last().1)
    }
}

/// Keys in strictly increasing order.
pub open spec fn sorted_keys<V>(rs: Seq<(Seq<char>, V)>) -> bool {
    forall|i: int, j: int| 0 <= i < j < rs.len() ==> key_lt(#[trigger] rs[i].0, #[trigger] rs[j].0)
}

/// Lexicographic order is transitive.
pub proof fn lemma_bytes_lt_trans(a: Seq<u8>, b: Seq<u8>, c: Seq<u8>)
    requires
        bytes_lt(a, b),
        bytes_lt(b, c),
    ensures
        bytes_lt(a, c),
    decreases a.len(),
{
    if a.len() > 0 && b.len() > 0 && c.len() > 0 && a[0] == b[0] && b[0] == c[0] {
        lemma_bytes_lt_trans(a.drop_first(), b.drop_first(), c.drop_first());
    }
}

/// Of two different byte strings, one comes before the other.
pub proof fn lemma_bytes_lt_total(a: Seq<u8>, b: Seq<u8>)
    requires
        a != b,
    ensures
        bytes_lt(a, b) || bytes_lt(b, a),
    decreases a.len(),
{
    if a.len() > 0 && b.len() > 0 && a[0] == b[0] {
        if a.drop_first() == b.drop_first() {
            assert(a =~= seq![a[0]] + a.drop_first());
            assert(b =~= seq![b[0]] + b.drop_first());
        }
        lemma_bytes_lt_total(a.drop_first(), b.drop_first());
    } else if a.len() == 0 && b.len() == 0 {
        assert(a =~= b);
    }
}

/// Binding a key keeps the keys in strictly increasing order.
pub proof fn lemma_insert_sorted<V>(rs: Seq<(Seq<char>, V)>, k: Seq<char>, v: V)
    requires
        sorted_keys(rs),
    ensures
        sorted_keys(dict_insert(rs, k, v)),
{
    let i = insert_pos(rs, k);
    lemma_pos_from(rs, k, 0);
    let n = dict_insert(rs, k, v);
    if 0 <= i < rs.len() && rs[i].0 == k {
        assert forall|a: int, b: int| 0 <= a < b < n.len() implies key_lt(#[trigger] n[a].0, #[trigger] n[b].0) by {
            assert(n[a].0 == rs[a].0);
            assert(n[b].0 == rs[b].0);
        }
    } else {
        if i < rs.len() {
            // The key at the insertion point does not come before `k` and is not `k`.
            assert(!key_lt(rs[i].0, k));
            if encode_utf8(rs[i].0) == encode_utf8(k) {
                lemma_encode_injective(rs[i].0, k);
            }
            lemma_bytes_lt_total(encode_utf8(rs[i].0), encode_utf8(k));
            assert(key_lt(k, rs[i].0));
        }
        assert forall|a: int, b: int| 0 <= a < b < n.len() implies key_lt(#[trigger] n[a].0, #[trigger] n[b].0) by {
            if b < i {
                assert(n[a] == rs[a] && n[b] == rs[b]);
            } else if b == i {
                assert(n[a] == rs[a]);
                assert(key_lt(rs[a].0, k));
            } else if a < i {
                assert(n[a] == rs[a] && n[b] == rs[b - 1]);
                assert(key_lt(rs[a].0, k));
                assert(key_lt(k, rs[i].0));
                if b - 1 > i {
                    assert(key_lt(rs[i].0, rs[b - 1].0));
                    lemma_bytes_lt_trans(encode_utf8(k), encode_utf8(rs[i].0), encode_utf8(rs[b - 1].0));
                }
                lemma_bytes_lt_trans(encode_utf8(rs[a].0), encode_utf8(k), encode_utf8(rs[b - 1].0));
            } else if a == i {
                assert(n[b] == rs[b - 1]);
                if b - 1 > i {
                    assert(key_lt(rs[i].0, rs[b - 1].0));
                    lemma_bytes_lt_trans(encode_utf8(k), encode_utf8(rs[i].0), encode_utf8(rs[b - 1].0));
                }
            } else {
                assert(n[a] == rs[a - 1] && n[b] == rs[b - 1]);
            }
        }
    }
}

/// How two byte strings are ordered.
pub enum ByteOrder {
    Before,
    Same,
    After,
}

/// Compares two byte strings lexicographically.
pub fn order_bytes(a: &[u8], b: &[u8]) -> (r: ByteOrder)
    ensures
        r is Before <==> bytes_lt(a@, b@),
        r is Same <==> a@ == b@,
        r is After <==> bytes_lt(b@, a@),
{
    let mut i: usize = 0;
    assert(a@.skip(0) =~= a@);
    assert(b@.skip(0) =~= b@);
    while i < a.len() && i < b.len() && a[i] == b[i]
        invariant
            i <= a@.len(),
            i <= b@.len(),
            a@.subrange(0, i as int) == b@.subrange(0, i as int),
            bytes_lt(a@, b@) == bytes_lt(a@.skip(i as int), b@.skip(i as int)),
            bytes_lt(b@, a@) == bytes_lt(b@.skip(i as int), a@.skip(i as int)),
        decreases a@.len() - i,
    {
        assert(a@.skip(i as int).drop_first() =~= a@.skip(i + 1));
        assert(b@.skip(i as int).drop_first() =~= b@.skip(i + 1));
        assert(a@.subrange(0, i + 1) =~= a@.subrange(0, i as int).push(a@[i as int]));
        assert(b@.subrange(0, i + 1) =~= b@.subrange(0, i as int).push(b@[i as int]));
        i = i + 1;
    }
    if i == a.len() && i == b.len() {
        assert(a@ =~= a@.subrange(0, i as int));
        assert(b@ =~= b@.subrange(0, i as int));
        ByteOrder::Same
    } else if i == a.len() {
        assert(a@.skip(i as int).len() == 0);
        proof {
            if a@ == b@ {
                assert(a@.len() == b@.len());
            }
        }
        ByteOrder::Before
    } else if i == b.len() {
        assert(b@.skip(i as int).len() == 0);
        proof {
            if a@ == b@ {
                assert(a@.len() == b@.len());
            }
        }
        ByteOrder::After
    } else if a[i] < b[i] {
        assert(a@.skip(i as int)[0] == a@[i as int]);
        assert(b@.skip(i as int)[0] == b@[i as int]);
        assert(a@ != b@ ==> true);
        proof {
            if a@ == b@ {
                assert(a@[i as int] == b@[i as int]);
            }
        }
        ByteOrder::Before
    } else {
        assert(a@.skip(i as int)[0] == a@[i as int]);
        assert(b@.skip(i as int)[0] == b@[i as int]);
        proof {
            if a@ == b@ {
                assert(a@[i as int] == b@[i as int]);
            }
        }
        ByteOrder::After
    }
}

/// Equal UTF-8 encodings come from equal strings.
pub proof fn lemma_encode_injective(a: Seq<char>, b: Seq<char>)
    requires
        encode_utf8(a) == encode_utf8(b),
    ensures
        a == b,
{
    assert(decode_utf8(encode_utf8(a)) == a);
    assert(decode_utf8(encode_utf8(b)) == b);
}

impl Dictionary {
    /// An empty dictionary.
    pub fn new() -> (r: Self)
        ensures
            r@ == Seq::<(Seq<char>, ObjectModel)>::empty(),
    {
        Dictionary { records: Vec::new() }
    }

    /// The dictionary of the entries `entries`, bound in order: a later
    /// entry with a key replaces an earlier one.
    pub fn from_entries(entries: Vec<(String, Object)>) -> (r: Self)
        ensures
            r@ == dict_insert_all(Seq::empty(), records_view(entries@)),
            sorted_keys(r@),
    {
        proof {
            lemma_records_view(entries@);
        }
        let ghost es = records_view(entries@);
        let mut d = Dictionary::new();
        let mut rest = entries;
        let n = rest.len();
        let mut j: usize = 0;
        assert(es.take(0) =~= Seq::<(Seq<char>, ObjectModel)>::empty());
        while j < n
            invariant
                n == es.len(),
                rest@.len() == n - j,
                forall|i: int| 0 <= i < rest@.len() ==> (#[trigger] rest@[i]).0@ == es[i + j].0
                    && object_view(rest@[i].1) == es[i + j].1,
                d@ == dict_insert_all(Seq::empty(), es.take(j as int)),
                sorted_keys(d@),
            decreases n - j,
        {
            let (k, v) = rest.remove(0);
            proof {
                assert(es.take(j + 1).drop_last() =~= es.take(j as int));
                lemma_insert_sorted(d@, k@, v@);
            }
            d.insert(k, v);
            j = j + 1;
        }
        assert(es.take(n as int) =~= es);
        d
    }

    /// The number of entries.
    pub fn len(&self) -> (r: usize)
        ensures
            r == self@.len(),
    {
        proof {
            lemma_records_view(self.records@);
        }
        self.records.len()
    }

    /// The entries, in increasing order of their keys.
    pub fn entries(&self) -> (r: &[(String, Object)])
        ensures
            r@ == self.records@,
    {
        self.records.as_slice()
    }

    /// Binds `key` to `value`, replacing the value of an entry with that key.
    pub fn insert(&mut self, key: String, value: Object)
        ensures
            final(self)@ == dict_insert(old(self)@, key@, value@),
    {
        proof {
            lemma_records_view(self.records@);
        }
        let ghost rs = self@;
        let mut i: usize = 0;
        let n = self.records.len();
        loop
            invariant
                n == self.records@.len(),
                i <= n,
                rs == self@,
                rs == old(self)@,
                rs == records_view(self.records@),
                rs.len() == n,
                forall|j: int| 0 <= j < n ==> #[trigger] rs[j] == (self.records@[j].0@, object_view(self.records@[j].1)),
                pos_from(rs, key@, i as int) == insert_pos(rs, key@),
            ensures
                i <= n,
                rs == self@,
                rs == old(self)@,
                n == self.records@.len(),
                pos_from(rs, key@, i as int) == insert_pos(rs, key@),
                i == n || (!key_lt(rs[i as int].0, key@) && rs[i as int].0 != key@),
            decreases n - i,
        {
            if i == n {
                break;
            }
            let o = order_bytes(self.records[i].0.as_str().as_bytes(), key.as_str().as_bytes());
            match o {
                ByteOrder::Before => {
                    i = i + 1;
                },
                ByteOrder::Same => {
                    proof {
                        lemma_encode_injective(self.records@[i as int].0@, key@);
                        assert(pos_from(rs, key@, i as int) == i as int);
                    }
                    let ghost old_records = self.records@;
                    self.records[i] = (key, value);
                    proof {
                        lemma_records_view(self.records@);
                        lemma_records_view(old_records);
                        assert(self@ =~= dict_insert(rs, key@, value@));
                    }
                    return;
                },
                ByteOrder::After => {
                    proof {
                        if self.records@[i as int].0@ == key@ {
                            assert(encode_utf8(self.records@[i as int].0@) == encode_utf8(key@));
                        }
                    }
                    break;
                },
            }
        }
        proof {
            assert(pos_from(rs, key@, i as int) == i as int);
        }
        let ghost kv = key@;
        let ghost vv = value@;
        let ghost old_records = self.records@;
        self.records.insert(i, (key, value));
        proof {
            lemma_records_view(self.records@);
            lemma_records_view(old_records);
            assert(self@ =~= dict_insert(rs, kv, vv));
        }
    }

    /// The value bound to `key`.
    pub fn get(&self, key: &str) -> (r: Option<&Object>)
        ensures
            r matches Some(o) ==> dict_get(self@, key@) == Some(o@),
            r is None ==> dict_get(self@, key@) is None,
    {
        proof {
            lemma_records_view(self.records@);
        }
        let ghost rs = self@;
        let mut i: usize = 0;
        let n = self.records.len();
        while i < n
            invariant
                n == self.records@.len(),
                i <= n,
                rs == self@,
                rs.len() == n,
                forall|j: int| 0 <= j < n ==> #[trigger] rs[j] == (self.records@[j].0@, object_view(self.records@[j].1)),
                find_from(rs, key@, i as int) == find_from(rs, key@, 0),
            decreases n - i,
        {
            let same = match order_bytes(self.records[i].0.as_str().as_bytes(), key.as_bytes()) {
                ByteOrder::Same => true,
                _ => false,
            };
            if same {
                proof {
                    lemma_encode_injective(self.records@[i as int].0@, key@);
                }
                return Some(&self.records[i].1);
            }
            proof {
                if self.records@[i as int].0@ == key@ {
                    assert(encode_utf8(self.records@[i as int].0@) == encode_utf8(key@));
                }
            }
            i = i + 1;
        }
        None
    }
}

} // verus!
