use vstd::prelude::*;
use crate::text::lex_le;
use crate::text::text_le;

verus! {

#[verifier::external_type_specification]
#[verifier::external_body]
pub struct ExJsonError(serde_json::Error);

/// A callable function of a contract's ABI.
pub struct AbiFunction {
    pub name: String,
    /// The canonical type of each input, tuples spelled out.
    pub input_types: Vec<String>,
    /// `name(type1,type2,...)`.
    pub signature: String,
    /// The first four bytes of the signature's hash, read big-endian.
    pub selector: u32,
}

/// The functions that alloy reads from the JSON text of an ABI, each as its
/// name and canonical input types, in the order `JsonAbi::functions` yields
/// them; `None` where the text is no valid ABI.
pub uninterp spec fn abi_functions_of(text: Seq<char>) -> Option<Seq<(Seq<char>, Seq<Seq<char>>)>>;

/// The selector of a function signature: the first four bytes of its
/// Keccak-256 hash, read big-endian.
pub uninterp spec fn selector_of(signature: Seq<char>) -> u32;

/// `types` separated by commas.
pub open spec fn comma_joined(types: Seq<Seq<char>>) -> Seq<char>
    decreases types.len(),
{
    if types.len() == 0 {
        Seq::empty()
    } else if types.len() == 1 {
        types[0]
    } else {
        comma_joined(types.drop_last()) + seq![','] + types.last()
    }
}

/// The canonical signature of a function: `name(type1,type2,...)`.
pub open spec fn signature_text(name: Seq<char>, types: Seq<Seq<char>>) -> Seq<char> {
    name + seq!['('] + comma_joined(types) + seq![')']
}

/// What the ABI model holds of a function: its name and input types.
pub open spec fn shape_of(f: AbiFunction) -> (Seq<char>, Seq<Seq<char>>) {
    (f.name@, f.input_types@.map_values(|t: String| t@))
}

/// A function whose signature and selector agree with its name and inputs.
pub open spec fn well_formed(f: AbiFunction) -> bool {
    &&& f.signature@ == signature_text(f.name@, shape_of(f).1)
    &&& f.selector == selector_of(f.signature@)
}

/// Relies on serde_json::from_str to read the text into alloy's `JsonAbi`, on
/// `JsonAbi::functions` to list its functions, and on `Function::signature`
/// (the name, then the inputs' `Param::selector_type` in parentheses, comma
/// separated) and `Function::selector` (Keccak-256 of the signature, first
/// four bytes).
#[verifier::external_body]
fn parse_abi_functions(text: &str) -> (r: Result<Vec<AbiFunction>, serde_json::Error>)
    ensures
        match r {
            Ok(fs) => {
                &&& abi_functions_of(text@) == Some(fs@.map_values(|f: AbiFunction| shape_of(f)))
                &&& forall|i: int| 0 <= i < fs@.len() ==> #[trigger] fs@[i].signature@
                    == signature_text(fs@[i].name@, shape_of(fs@[i]).1)
                &&& forall|i: int| 0 <= i < fs@.len() ==> #[trigger] fs@[i].selector
                    == selector_of(fs@[i].signature@)
            },
            Err(_) => abi_functions_of(text@) is None,
        },
{
    let abi: alloy_json_abi::JsonAbi = serde_json::from_str(text)?;
    Ok(abi.functions().map(|f| AbiFunction {
        name: f.name.clone(),
        input_types: f.inputs.iter().map(|p| p.selector_type().into_owned()).collect(),
        signature: f.signature(),
        selector: u32::from_be_bytes(f.selector().0),
    }).collect())
}

/// The functions of the ABI written as `text`, or `None` where alloy does not
/// read it as an ABI.
pub fn abi_functions(text: &str) -> (r: Option<Vec<AbiFunction>>)
    ensures
        match r {
            Some(fs) => {
                &&& abi_functions_of(text@) == Some(fs@.map_values(|f: AbiFunction| shape_of(f)))
                &&& forall|i: int| 0 <= i < fs@.len() ==> #[trigger] well_formed(fs@[i])
            },
            None => abi_functions_of(text@) is None,
        },
{
    match parse_abi_functions(text) {
        Ok(fs) => Some(fs),
        Err(_) => None,
    }
}

/// The canonical signature of a function of the ABI model.
pub open spec fn shape_signature(sh: (Seq<char>, Seq<Seq<char>>)) -> Seq<char> {
    signature_text(sh.0, sh.1)
}

/// The ABI model of a sequence of functions.
pub open spec fn shapes(fs: Seq<AbiFunction>) -> Seq<(Seq<char>, Seq<Seq<char>>)> {
    fs.map_values(|f: AbiFunction| shape_of(f))
}

/// Every function of `fs` agrees with its name and inputs.
pub open spec fn all_well_formed(fs: Seq<AbiFunction>) -> bool {
    forall|i: int| 0 <= i < fs.len() ==> #[trigger] well_formed(fs[i])
}

/// `x` placed into `s` after the last element whose signature does not come
/// after its own, scanning from the end.
pub open spec fn insert_by_signature(
    s: Seq<(Seq<char>, Seq<Seq<char>>)>,
    x: (Seq<char>, Seq<Seq<char>>),
) -> Seq<(Seq<char>, Seq<Seq<char>>)>
    decreases s.len(),
{
    if s.len() == 0 {
        seq![x]
    } else if lex_le(shape_signature(s.last()), shape_signature(x)) {
        s.push(x)
    } else {
        insert_by_signature(s.drop_last(), x).push(s.last())
    }
}

/// `s` in order of signature, by insertion; equal signatures keep their order.
pub open spec fn sorted_by_signature(s: Seq<(Seq<char>, Seq<Seq<char>>)>) -> Seq<(Seq<char>, Seq<Seq<char>>)>
    decreases s.len(),
{
    if s.len() == 0 {
        s
    } else {
        insert_by_signature(sorted_by_signature(s.drop_last()), s.last())
    }
}

proof fn lemma_insert_at(s: Seq<(Seq<char>, Seq<Seq<char>>)>, x: (Seq<char>, Seq<Seq<char>>), j: int)
    requires
        0 <= j <= s.len(),
        j == 0 || lex_le(shape_signature(s[j - 1]), shape_signature(x)),
        forall|k: int| j <= k < s.len() ==> !lex_le(#[trigger] shape_signature(s[k]), shape_signature(x)),
    ensures
        insert_by_signature(s, x) == s.insert(j, x),
    decreases s.len(),
{
    if s.len() == 0 {
        assert(s.insert(j, x) =~= seq![x]);
    } else if j == s.len() {
        assert(s.insert(j, x) =~= s.push(x));
    } else {
        let t = s.drop_last();
        assert(!lex_le(shape_signature(s[s.len() - 1]), shape_signature(x)));
        assert forall|k: int| j <= k < t.len() implies !lex_le(#[trigger] shape_signature(t[k]), shape_signature(x)) by {
            assert(t[k] == s[k]);
        }
        lemma_insert_at(t, x, j);
        assert(t.insert(j, x).push(s.last()) =~= s.insert(j, x));
    }
}

/// Inserts `x` into `v` where `insert_by_signature` places it.
fn insert_sorted(v: &mut Vec<AbiFunction>, x: AbiFunction)
    requires
        all_well_formed(old(v)@),
        well_formed(x),
    ensures
        shapes(final(v)@) == insert_by_signature(shapes(old(v)@), shape_of(x)),
        all_well_formed(final(v)@),
{
    let ghost s = shapes(v@);
    let mut j: usize = v.len();
    while j > 0 && !text_le(v[j - 1].signature.as_str(), x.signature.as_str())
        invariant
            j <= v@.len(),
            s == shapes(v@),
            all_well_formed(v@),
            well_formed(x),
            forall|k: int| j <= k < s.len() ==> !lex_le(#[trigger] shape_signature(s[k]), shape_signature(shape_of(x))),
        decreases j,
    {
        assert(well_formed(v@[j - 1]));
        j = j - 1;
    }
    proof {
        if j > 0 {
            assert(well_formed(v@[j - 1]));
        }
        lemma_insert_at(s, shape_of(x), j as int);
    }
    v.insert(j, x);
    proof {
        assert(shapes(v@) =~= s.insert(j as int, shape_of(x)));
        assert forall|i: int| 0 <= i < v@.len() implies #[trigger] well_formed(v@[i]) by {
            if i < j {
                assert(v@[i] == old(v)@[i]);
            } else if i > j {
                assert(v@[i] == old(v)@[i - 1]);
            }
        }
    }
}

/// The functions in order of signature; for equal signatures, in the order given.
pub fn sort_by_signature(fs: Vec<AbiFunction>) -> (r: Vec<AbiFunction>)
    requires
        all_well_formed(fs@),
    ensures
        shapes(r@) == sorted_by_signature(shapes(fs@)),
        all_well_formed(r@),
{
    let ghost all = fs@;
    let n = fs.len();
    let mut rest = fs;
    let mut out: Vec<AbiFunction> = Vec::new();
    let mut i: usize = 0;
    assert(shapes(out@) =~= sorted_by_signature(shapes(all).subrange(0, 0)));
    while i < n
        invariant
            n == all.len(),
            i <= n,
            all_well_formed(all),
            rest@ == all.subrange(i as int, n as int),
            shapes(out@) == sorted_by_signature(shapes(all).subrange(0, i as int)),
            all_well_formed(out@),
        decreases n - i,
    {
        let x = rest.remove(0);
        proof {
            assert(shapes(all).subrange(0, i + 1).drop_last() =~= shapes(all).subrange(0, i as int));
            assert(x == all[i as int]);
            assert(well_formed(all[i as int]));
        }
        insert_sorted(&mut out, x);
        proof {
            assert(rest@ =~= all.subrange(i + 1, n as int));
        }
        i = i + 1;
    }
    assert(shapes(all).subrange(0, n as int) =~= shapes(all));
    out
}

/// How many of the first `i` functions of `s` are named `name`.
pub open spec fn named_before(s: Seq<(Seq<char>, Seq<Seq<char>>)>, name: Seq<char>, i: int) -> nat
    decreases i,
{
    if i <= 0 {
        0
    } else {
        named_before(s, name, i - 1) + if s[i - 1].0 == name { 1nat } else { 0nat }
    }
}

/// The position of `s[i]` among the functions of `s` that share its name.
pub open spec fn overload_index(s: Seq<(Seq<char>, Seq<Seq<char>>)>, i: int) -> nat {
    named_before(s, s[i].0, i)
}

/// Counts the functions before position `i` that share the name of `fs[i]`.
pub fn overload_position(fs: &Vec<AbiFunction>, i: usize) -> (r: usize)
    requires
        i < fs@.len(),
    ensures
        r == overload_index(shapes(fs@), i as int),
{
    let ghost s = shapes(fs@);
    let mut k: usize = 0;
    let mut count: usize = 0;
    while k < i
        invariant
            i < fs@.len(),
            s == shapes(fs@),
            k <= i,
            count == named_before(s, s[i as int].0, k as int),
            count <= k,
        decreases i - k,
    {
        if fs[k].name == fs[i].name {
            count = count + 1;
        }
        k = k + 1;
    }
    count
}

} // verus!
