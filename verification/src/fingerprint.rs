//! An identifier for a title that no descriptor knows, made from the names of
//! its files.
//!
//! The names are taken as a set, put in the ascending order of their UTF-8
//! encodings, and joined end to end. The identifier is the first four bytes
//! of the SHA-256 digest of these bytes, read as a big-endian number. So the
//! same installation gives the same identifier on every run, whatever order
//! the directory walk gave the files in.

use sha2::Digest;
use vstd::prelude::*;
use vstd::utf8::encode_utf8;

use crate::meta::AppId;
use crate::text::bytes_eq;
use crate::text::texts;

verus! {

/// What `sha2::Sha256::digest` gives for `data`: its SHA-256 digest.
pub uninterp spec fn sha256(data: Seq<u8>) -> Seq<u8>;

/// Computes the SHA-256 digest of `data` with `sha2::Sha256::digest`.
///
/// The contract names the digest and says nothing of its bytes; that the
/// result has 32 bytes is in its type.
#[verifier::external_body]
fn sha256_digest(data: &[u8]) -> (digest: [u8; 32])
    ensures
        digest@ == sha256(data@),
{
    sha2::Sha256::digest(data).into()
}

/// Whether `a` comes before `b` in the lexicographic order of bytes: at the
/// first place where they differ `a` has the smaller byte, or `a` ends there
/// and `b` goes on.
pub open spec fn precedes(a: Seq<u8>, b: Seq<u8>) -> bool
    decreases a.len(),
{
    if b.len() == 0 {
        false
    } else if a.len() == 0 {
        true
    } else if a[0] != b[0] {
        a[0] < b[0]
    } else {
        precedes(a.drop_first(), b.drop_first())
    }
}

/// Nothing comes before itself.
pub proof fn lemma_precedes_irreflexive(a: Seq<u8>)
    ensures
        !precedes(a, a),
    decreases a.len(),
{
    if a.len() > 0 {
        lemma_precedes_irreflexive(a.drop_first());
    }
}

/// Of two different byte strings one comes before the other.
pub proof fn lemma_precedes_total(a: Seq<u8>, b: Seq<u8>)
    ensures
        a == b || precedes(a, b) || precedes(b, a),
    decreases a.len(),
{
    if a.len() == 0 || b.len() == 0 {
        if a.len() == 0 && b.len() == 0 {
            assert(a =~= b);
        }
    } else if a[0] == b[0] {
        lemma_precedes_total(a.drop_first(), b.drop_first());
        if a.drop_first() == b.drop_first() {
            assert(a =~= seq![a[0]] + a.drop_first());
            assert(b =~= seq![b[0]] + b.drop_first());
        }
    }
}

/// What comes before something that comes before `c` comes before `c`.
pub proof fn lemma_precedes_transitive(a: Seq<u8>, b: Seq<u8>, c: Seq<u8>)
    requires
        precedes(a, b),
        precedes(b, c),
    ensures
        precedes(a, c),
    decreases a.len(),
{
    if a.len() > 0 && a[0] == b[0] && b[0] == c[0] {
        lemma_precedes_transitive(a.drop_first(), b.drop_first(), c.drop_first());
    }
}

/// Whether each of `names` comes before all that follow it.
pub open spec fn ascending(names: Seq<Seq<u8>>) -> bool {
    forall|i: int, j: int| 0 <= i < j < names.len() ==> precedes(names[i], names[j])
}

/// Two ascending sequences with the same items are the same sequence.
pub proof fn lemma_ascending_unique(a: Seq<Seq<u8>>, b: Seq<Seq<u8>>)
    requires
        ascending(a),
        ascending(b),
        a.to_set() == b.to_set(),
    ensures
        a == b,
    decreases a.len(),
{
    if a.len() == 0 {
        if b.len() > 0 {
            assert(b.to_set().contains(b[0]));
            assert(a.to_set().contains(b[0]));
        }
        assert(a =~= b);
    } else if b.len() == 0 {
        assert(a.to_set().contains(a[0]));
        assert(b.to_set().contains(a[0]));
    } else {
        let top_a = a.last();
        let top_b = b.last();
        assert(a.to_set().contains(top_a));
        assert(b.to_set().contains(top_a));
        assert(b.to_set().contains(top_b));
        assert(a.to_set().contains(top_b));
        if top_a != top_b {
            let i = choose|i: int| 0 <= i < b.len() && b[i] == top_a;
            let j = choose|j: int| 0 <= j < a.len() && a[j] == top_b;
            assert(precedes(top_a, top_b));
            assert(precedes(top_b, top_a));
            lemma_precedes_transitive(top_a, top_b, top_a);
            lemma_precedes_irreflexive(top_a);
        }
        let rest_a = a.drop_last();
        let rest_b = b.drop_last();
        assert forall|x: Seq<u8>| rest_a.to_set().contains(x) <==> rest_b.to_set().contains(
            x,
        ) by {
            lemma_precedes_irreflexive(top_a);
            if rest_a.to_set().contains(x) {
                let i = choose|i: int| 0 <= i < rest_a.len() && rest_a[i] == x;
                assert(a[i] == x);
                assert(precedes(x, top_a));
                assert(a.to_set().contains(x));
                let j = choose|j: int| 0 <= j < b.len() && b[j] == x;
                assert(rest_b[j] == x);
            }
            if rest_b.to_set().contains(x) {
                let i = choose|i: int| 0 <= i < rest_b.len() && rest_b[i] == x;
                assert(b[i] == x);
                assert(precedes(x, top_b));
                assert(b.to_set().contains(x));
                let j = choose|j: int| 0 <= j < a.len() && a[j] == x;
                assert(rest_a[j] == x);
            }
        }
        assert(rest_a.to_set() =~= rest_b.to_set());
        assert(ascending(rest_a)) by {
            assert forall|i: int, j: int| 0 <= i < j < rest_a.len() implies precedes(
                rest_a[i],
                rest_a[j],
            ) by {
                assert(rest_a[i] == a[i] && rest_a[j] == a[j]);
            }
        }
        assert(ascending(rest_b)) by {
            assert forall|i: int, j: int| 0 <= i < j < rest_b.len() implies precedes(
                rest_b[i],
                rest_b[j],
            ) by {
                assert(rest_b[i] == b[i] && rest_b[j] == b[j]);
            }
        }
        lemma_ascending_unique(rest_a, rest_b);
        assert(a =~= rest_a.push(top_a));
        assert(b =~= rest_b.push(top_b));
    }
}

/// The UTF-8 encodings of `names`, as a set: neither the order of the names
/// nor how often one occurs is kept.
pub open spec fn name_set(names: Seq<Seq<char>>) -> Set<Seq<u8>> {
    names.map_values(|name: Seq<char>| encode_utf8(name)).to_set()
}

/// Whether `order` holds the items of `names` in ascending order, each once.
pub open spec fn is_canonical(order: Seq<Seq<u8>>, names: Set<Seq<u8>>) -> bool {
    ascending(order) && order.to_set() == names
}

/// The items of `names` in ascending order.
pub open spec fn canonical(names: Set<Seq<u8>>) -> Seq<Seq<u8>> {
    choose|order: Seq<Seq<u8>>| is_canonical(order, names)
}

/// The number that the first four bytes of `digest` spell, highest byte first.
pub open spec fn identifier(digest: Seq<u8>) -> u32
    recommends
        digest.len() >= 4,
{
    (digest[0] * 0x100_0000 + digest[1] * 0x1_0000 + digest[2] * 0x100 + digest[3]) as u32
}

/// The identifier that stands for a title with the files `names`.
pub open spec fn fingerprint_of(names: Set<Seq<u8>>) -> u32 {
    identifier(sha256(canonical(names).flatten()))
}

/// Reads an identifier from the first four bytes of a digest, highest byte
/// first.
pub fn identifier_of(digest: &[u8; 32]) -> (app_id: AppId)
    ensures
        app_id.0 == identifier(digest@),
{
    let b0: u32 = digest[0] as u32;
    let b1: u32 = digest[1] as u32;
    let b2: u32 = digest[2] as u32;
    let b3: u32 = digest[3] as u32;
    AppId(b0 * 0x100_0000 + b1 * 0x1_0000 + b2 * 0x100 + b3)
}

/// The byte strings that `order` refers to.
pub open spec fn slices(order: Seq<&[u8]>) -> Seq<Seq<u8>> {
    order.map_values(|name: &[u8]| name@)
}

/// Whether `a` comes before `b` in the lexicographic order of bytes.
pub fn comes_before(a: &[u8], b: &[u8]) -> (r: bool)
    ensures
        r == precedes(a@, b@),
{
    let mut i: usize = 0;
    assert(a@.skip(0) =~= a@ && b@.skip(0) =~= b@);
    while i < a.len() && i < b.len()
        invariant
            i <= a@.len(),
            i <= b@.len(),
            precedes(a@, b@) == precedes(a@.skip(i as int), b@.skip(i as int)),
        decreases a@.len() - i,
    {
        proof {
            assert(a@.skip(i as int)[0] == a@[i as int]);
            assert(b@.skip(i as int)[0] == b@[i as int]);
            assert(a@.skip(i as int).drop_first() =~= a@.skip(i + 1));
            assert(b@.skip(i as int).drop_first() =~= b@.skip(i + 1));
        }
        if a[i] != b[i] {
            return a[i] < b[i];
        }
        i += 1;
    }
    i < b.len()
}

/// Puts `name` in its place in `order`, unless `order` holds it already.
fn insert_name<'a>(order: &mut Vec<&'a [u8]>, name: &'a [u8])
    requires
        ascending(slices(old(order)@)),
    ensures
        ascending(slices(final(order)@)),
        slices(final(order)@).to_set() == slices(old(order)@).to_set().insert(name@),
{
    let ghost before = slices(order@);
    let mut at: usize = 0;
    while at < order.len() && comes_before(order[at], name)
        invariant
            at <= order@.len(),
            before == slices(order@),
            forall|i: int| 0 <= i < at ==> precedes(#[trigger] before[i], name@),
        decreases order@.len() - at,
    {
        at += 1;
    }
    if at < order.len() && bytes_eq(order[at], name) {
        assert(before[at as int] == name@);
        assert(before.to_set() =~= before.to_set().insert(name@));
        return;
    }
    order.insert(at, name);
    proof {
        let after = slices(order@);
        assert(after =~= before.insert(at as int, name@));
        assert(after[at as int] == name@);
        assert forall|i: int| 0 <= i < at implies after[i] == before[i] by {}
        assert forall|i: int| at < i < after.len() implies after[i] == before[i - 1] by {}
        if at < before.len() {
            lemma_precedes_total(before[at as int], name@);
        }
        assert forall|i: int, j: int| 0 <= i < j < after.len() implies precedes(
            after[i],
            after[j],
        ) by {
            if j == at {
                assert(after[i] == before[i]);
            } else if i == at {
                assert(after[j] == before[j - 1]);
                if j - 1 > at {
                    lemma_precedes_transitive(name@, before[at as int], before[j - 1]);
                }
            } else if i < at && j > at {
                assert(after[i] == before[i] && after[j] == before[j - 1]);
            } else if i < at {
                assert(after[i] == before[i] && after[j] == before[j]);
            } else {
                assert(after[i] == before[i - 1] && after[j] == before[j - 1]);
            }
        }
        assert forall|x: Seq<u8>| after.to_set().contains(x) <==> before.to_set().insert(
            name@,
        ).contains(x) by {
            if after.to_set().contains(x) {
                let i = choose|i: int| 0 <= i < after.len() && after[i] == x;
                if i < at {
                    assert(before[i] == x);
                } else if i > at {
                    assert(before[i - 1] == x);
                }
            }
            if before.to_set().contains(x) {
                let i = choose|i: int| 0 <= i < before.len() && before[i] == x;
                if i < at {
                    assert(after[i] == x);
                } else {
                    assert(after[i + 1] == x);
                }
            }
        }
        assert(after.to_set() =~= before.to_set().insert(name@));
    }
}

/// Computes the identifier that stands for a title with the files `names`.
///
/// The result depends on the set of the names alone: a name that occurs
/// twice counts once, and the order of `names` does not matter.
pub fn fingerprint(names: &Vec<String>) -> (app_id: AppId)
    ensures
        app_id.0 == fingerprint_of(name_set(texts(names@))),
{
    let ghost encoded = texts(names@).map_values(|name: Seq<char>| encode_utf8(name));
    let mut order: Vec<&[u8]> = Vec::new();
    let mut i: usize = 0;
    assert(slices(order@).to_set() =~= encoded.take(0).to_set());
    while i < names.len()
        invariant
            i <= names@.len(),
            encoded == texts(names@).map_values(|name: Seq<char>| encode_utf8(name)),
            ascending(slices(order@)),
            slices(order@).to_set() == encoded.take(i as int).to_set(),
        decreases names@.len() - i,
    {
        let name = names[i].as_str().as_bytes();
        assert(name@ == encoded[i as int]);
        insert_name(&mut order, name);
        proof {
            let upto = encoded.take(i + 1);
            assert(upto =~= encoded.take(i as int).push(name@));
            assert forall|x: Seq<u8>| upto.to_set().contains(x) <==> encoded.take(
                i as int,
            ).to_set().insert(name@).contains(x) by {
                if upto.to_set().contains(x) {
                    let k = choose|k: int| 0 <= k < upto.len() && upto[k] == x;
                    if k < i {
                        assert(encoded.take(i as int)[k] == x);
                    }
                }
                if encoded.take(i as int).to_set().contains(x) {
                    let k = choose|k: int| 0 <= k < i && encoded.take(i as int)[k] == x;
                    assert(upto[k] == x);
                }
                if x == name@ {
                    assert(upto[i as int] == x);
                }
            }
            assert(upto.to_set() =~= encoded.take(i as int).to_set().insert(name@));
        }
        i += 1;
    }
    assert(encoded.take(names@.len() as int) =~= encoded);
    let mut bytes: Vec<u8> = Vec::new();
    let mut k: usize = 0;
    assert(slices(order@).take(0).flatten() =~= Seq::<u8>::empty());
    while k < order.len()
        invariant
            k <= order@.len(),
            bytes@ == slices(order@).take(k as int).flatten(),
        decreases order@.len() - k,
    {
        bytes.extend_from_slice(order[k]);
        proof {
            let so_far = slices(order@).take(k as int);
            assert(slices(order@).take(k + 1) =~= so_far.push(order@[k as int]@));
            so_far.lemma_flatten_push(order@[k as int]@);
        }
        k += 1;
    }
    assert(slices(order@).take(order@.len() as int) =~= slices(order@));
    proof {
        let names_set = name_set(texts(names@));
        assert(is_canonical(slices(order@), names_set));
        lemma_ascending_unique(slices(order@), canonical(names_set));
    }
    let digest = sha256_digest(bytes.as_slice());
    identifier_of(&digest)
}

/// The identifier is the same for two lists of names that hold the same
/// names, in whatever order and however often: it depends on the set alone.
pub proof fn lemma_fingerprint_of_set(a: Seq<Seq<char>>, b: Seq<Seq<char>>)
    requires
        a.to_set() == b.to_set(),
    ensures
        fingerprint_of(name_set(a)) == fingerprint_of(name_set(b)),
{
    let encode = |name: Seq<char>| encode_utf8(name);
    assert forall|x: Seq<u8>| name_set(a).contains(x) <==> name_set(b).contains(x) by {
        if name_set(a).contains(x) {
            let i = choose|i: int| 0 <= i < a.len() && a.map_values(encode)[i] == x;
            assert(a.to_set().contains(a[i]));
            assert(b.to_set().contains(a[i]));
            let j = choose|j: int| 0 <= j < b.len() && b[j] == a[i];
            assert(b.map_values(encode)[j] == x);
        }
        if name_set(b).contains(x) {
            let i = choose|i: int| 0 <= i < b.len() && b.map_values(encode)[i] == x;
            assert(b.to_set().contains(b[i]));
            assert(a.to_set().contains(b[i]));
            let j = choose|j: int| 0 <= j < a.len() && a[j] == b[i];
            assert(a.map_values(encode)[j] == x);
        }
    }
    assert(name_set(a) =~= name_set(b));
}

/// The identifier does not depend on the order in which the files were found:
/// any rearrangement of the names gives the same identifier.
pub proof fn lemma_fingerprint_ignores_order(a: Seq<Seq<char>>, b: Seq<Seq<char>>)
    requires
        a.to_multiset() == b.to_multiset(),
    ensures
        fingerprint_of(name_set(a)) == fingerprint_of(name_set(b)),
{
    assert forall|x: Seq<char>| a.to_set().contains(x) <==> b.to_set().contains(x) by {
        a.to_multiset_ensures();
        b.to_multiset_ensures();
        assert(a.contains(x) <==> a.to_multiset().count(x) > 0);
        assert(b.contains(x) <==> b.to_multiset().count(x) > 0);
    }
    assert(a.to_set() =~= b.to_set());
    lemma_fingerprint_of_set(a, b);
}

} // verus!
