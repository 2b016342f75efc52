use vstd::prelude::*;
use crate::abi::insert_by_signature;
use crate::abi::shape_signature;
use crate::abi::sorted_by_signature;
use crate::emit::abi_model;
use crate::emit::contract_outputs;
use crate::emit::document_outputs;
use crate::emit::file_views;
use crate::emit::OutputFile;
use crate::emit::router_body;
use crate::emit::storage_entries_text;
use crate::emit::storage_entry_text;
use crate::emit::storage_text;
use crate::json::Json;
use crate::json::member;
use crate::text::lex_le;

verus! {

broadcast use vstd::seq_lib::to_multiset_build, vstd::seq_lib::to_multiset_insert;

/// Two texts are always ordered one way or the other.
pub proof fn lex_le_total(a: Seq<char>, b: Seq<char>)
    ensures
        lex_le(a, b) || lex_le(b, a),
    decreases a.len(),
{
    if a.len() > 0 && b.len() > 0 && a[0] as u32 == b[0] as u32 {
        lex_le_total(a.drop_first(), b.drop_first());
    }
}

/// The order of texts is transitive.
pub proof fn lex_le_transitive(a: Seq<char>, b: Seq<char>, c: Seq<char>)
    requires
        lex_le(a, b),
        lex_le(b, c),
    ensures
        lex_le(a, c),
    decreases a.len(),
{
    if a.len() > 0 && b.len() > 0 && c.len() > 0 && a[0] as u32 == b[0] as u32 && b[0] as u32 == c[0] as u32 {
        lex_le_transitive(a.drop_first(), b.drop_first(), c.drop_first());
    }
}

/// Whether the signatures of `s` never decrease.
pub open spec fn ordered_by_signature(s: Seq<(Seq<char>, Seq<Seq<char>>)>) -> bool {
    forall|i: int, j: int|
        0 <= i < j < s.len() ==> lex_le(#[trigger] shape_signature(s[i]), #[trigger] shape_signature(s[j]))
}

proof fn insert_position(s: Seq<(Seq<char>, Seq<Seq<char>>)>, x: (Seq<char>, Seq<Seq<char>>)) -> (j: int)
    ensures
        0 <= j <= s.len(),
        insert_by_signature(s, x) == s.insert(j, x),
    decreases s.len(),
{
    if s.len() == 0 {
        assert(s.insert(0, x) =~= seq![x]);
        0
    } else if lex_le(shape_signature(s.last()), shape_signature(x)) {
        assert(s.insert(s.len() as int, x) =~= s.push(x));
        s.len() as int
    } else {
        let t = s.drop_last();
        let j = insert_position(t, x);
        assert(t.insert(j, x).push(s.last()) =~= s.insert(j, x));
        j
    }
}

proof fn insert_keeps_order(s: Seq<(Seq<char>, Seq<Seq<char>>)>, x: (Seq<char>, Seq<Seq<char>>))
    requires
        ordered_by_signature(s),
    ensures
        ordered_by_signature(insert_by_signature(s, x)),
    decreases s.len(),
{
    let r = insert_by_signature(s, x);
    if s.len() == 0 {
    } else if lex_le(shape_signature(s.last()), shape_signature(x)) {
        assert forall|i: int, j: int| 0 <= i < j < r.len() implies lex_le(
            #[trigger] shape_signature(r[i]),
            #[trigger] shape_signature(r[j]),
        ) by {
            if j == s.len() && i < s.len() - 1 {
                lex_le_transitive(shape_signature(s[i]), shape_signature(s.last()), shape_signature(x));
            }
        }
    } else {
        let t = s.drop_last();
        let last = s.last();
        assert(ordered_by_signature(t)) by {
            assert forall|i: int, j: int| 0 <= i < j < t.len() implies lex_le(
                #[trigger] shape_signature(t[i]),
                #[trigger] shape_signature(t[j]),
            ) by {
                assert(t[i] == s[i] && t[j] == s[j]);
            }
        }
        insert_keeps_order(t, x);
        let m = insert_by_signature(t, x);
        let p = insert_position(t, x);
        lex_le_total(shape_signature(last), shape_signature(x));
        assert forall|i: int, j: int| 0 <= i < j < r.len() implies lex_le(
            #[trigger] shape_signature(r[i]),
            #[trigger] shape_signature(r[j]),
        ) by {
            if j == r.len() - 1 {
                assert(r[j] == last);
                assert(r[i] == m[i]);
                if i == p {
                    assert(m[i] == x);
                } else if i < p {
                    assert(m[i] == t[i] && t[i] == s[i]);
                    assert(s[s.len() - 1] == last);
                } else {
                    assert(m[i] == t[i - 1] && t[i - 1] == s[i - 1]);
                    assert(s[s.len() - 1] == last);
                }
            } else {
                assert(r[i] == m[i] && r[j] == m[j]);
            }
        }
    }
}

/// Overloads come out in order of signature, whatever order the ABI lists
/// them in.
pub proof fn sorted_by_signature_is_ordered(s: Seq<(Seq<char>, Seq<Seq<char>>)>)
    ensures
        ordered_by_signature(sorted_by_signature(s)),
    decreases s.len(),
{
    if s.len() > 0 {
        sorted_by_signature_is_ordered(s.drop_last());
        insert_keeps_order(sorted_by_signature(s.drop_last()), s.last());
    }
}

/// Ordering by signature keeps every function, each as often as it occurs.
pub proof fn sorted_by_signature_keeps_functions(s: Seq<(Seq<char>, Seq<Seq<char>>)>)
    ensures
        sorted_by_signature(s).to_multiset() == s.to_multiset(),
    decreases s.len(),
{
    if s.len() > 0 {
        let t = s.drop_last();
        sorted_by_signature_keeps_functions(t);
        let j = insert_position(sorted_by_signature(t), s.last());
        assert(t.push(s.last()) =~= s);
    }
}

/// A contract whose ABI has no function gets no router, and no file at all
/// where it has no storage defines either.
pub proof fn no_functions_no_router(file: Seq<char>, contract: Seq<char>, props: Json)
    requires
        abi_model(props).len() == 0,
    ensures
        router_body(props).len() == 0,
        storage_text(props).len() == 0 ==> contract_outputs(file, contract, props).len() == 0,
{
    assert(sorted_by_signature(abi_model(props)).len() == 0);
}

/// A storage entry without a numeric `offset` is skipped alone: the defines
/// are those of the other entries, in their order.
pub proof fn entry_without_offset_skipped_alone(es: Seq<Json>, k: int)
    requires
        0 <= k < es.len(),
        !(member(es[k], "offset"@) matches Some(Json::Number(_))),
    ensures
        storage_entries_text(es, es.len() as int) == storage_entries_text(es.remove(k), es.len() - 1),
    decreases es.len(),
{
    assert(storage_entry_text(es[k]) == Seq::<char>::empty());
    if k == es.len() - 1 {
        assert(es.remove(k) =~= es.drop_last());
        same_prefix_text(es, es.drop_last(), k);
    } else {
        let t = es.drop_last();
        entry_without_offset_skipped_alone(t, k);
        assert(t.remove(k) =~= es.remove(k).drop_last());
        same_prefix_text(t, es, es.len() - 1);
        same_prefix_text(t.remove(k), es.remove(k), es.len() - 2);
        assert(es.remove(k)[es.len() - 2] == es[es.len() - 1]);
    }
}

proof fn same_prefix_text(a: Seq<Json>, b: Seq<Json>, n: int)
    requires
        0 <= n <= a.len(),
        n <= b.len(),
        forall|i: int| 0 <= i < n ==> a[i] == b[i],
    ensures
        storage_entries_text(a, n) == storage_entries_text(b, n),
    decreases n,
{
    if n > 0 {
        same_prefix_text(a, b, n - 1);
    }
}

/// Two runs on the same document give the same files, byte for byte.
pub proof fn generation_is_deterministic(doc: Json, first: Seq<OutputFile>, second: Seq<OutputFile>)
    requires
        file_views(first) == document_outputs(doc),
        file_views(second) == document_outputs(doc),
    ensures
        file_views(first) == file_views(second),
{
}

} // verus!
