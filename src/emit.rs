use vstd::prelude::*;
use crate::abi::AbiFunction;
use crate::abi::abi_functions;
use crate::abi::abi_functions_of;
use crate::abi::all_well_formed;
use crate::abi::overload_index;
use crate::abi::overload_position;
use crate::abi::selector_of;
use crate::abi::shape_signature;
use crate::abi::shapes;
use crate::abi::sort_by_signature;
use crate::abi::sorted_by_signature;
use crate::abi::well_formed;
use crate::json::Json;
use crate::json::json_text;
use crate::json::member;
use crate::text::decimal;
use crate::text::hex_padded;
use crate::text::push_decimal;
use crate::text::push_hex_padded;
use crate::text::to_upper;

verus! {

/// The C identifier of the overload at position `k` among those named `name`.
pub open spec fn c_name(name: Seq<char>, k: nat) -> Seq<char> {
    if k == 0 {
        name
    } else {
        name + "_"@ + decimal(k)
    }
}

/// The selector define and the handler declaration of one function.
pub open spec fn declaration(cname: Seq<char>, sh: (Seq<char>, Seq<Seq<char>>)) -> Seq<char> {
    "#define SELECTOR_"@ + cname + " 0x"@ + hex_padded(selector_of(shape_signature(sh)) as nat, 8)
        + " // "@ + shape_signature(sh) + "\n"@ + "ArbResult "@ + cname
        + "(uint8_t *input, size_t len); // "@ + shape_signature(sh) + "\n"@
}

/// The router line that hands a call with this function's selector to its handler.
pub open spec fn dispatch_line(cname: Seq<char>) -> Seq<char> {
    "    if (selector==SELECTOR_"@ + cname + ") return "@ + cname + "(input, len);\n"@
}

/// The declarations of the first `n` functions of `s`.
pub open spec fn declarations(s: Seq<(Seq<char>, Seq<Seq<char>>)>, n: int) -> Seq<char>
    decreases n,
{
    if n <= 0 {
        Seq::empty()
    } else {
        declarations(s, n - 1) + declaration(c_name(s[n - 1].0, overload_index(s, n - 1)), s[n - 1])
    }
}

/// The dispatch lines of the first `n` functions of `s`.
pub open spec fn dispatch_chain(s: Seq<(Seq<char>, Seq<Seq<char>>)>, n: int) -> Seq<char>
    decreases n,
{
    if n <= 0 {
        Seq::empty()
    } else {
        dispatch_chain(s, n - 1) + dispatch_line(c_name(s[n - 1].0, overload_index(s, n - 1)))
    }
}

/// The defines of one storage variable, or nothing where the entry lacks a
/// string `label`, a string `slot` or a numeric `offset`.
pub open spec fn storage_entry_text(e: Json) -> Seq<char> {
    match (member(e, "label"@), member(e, "slot"@), member(e, "offset"@)) {
        (Some(Json::Str(label)), Some(Json::Str(slot)), Some(Json::Number(offset))) =>
            "#define STORAGE_SLOT_"@ + label@ + " "@ + slot@ + "\n"@
            + "#define STORAGE_OFFSET_"@ + label@ + " "@ + offset@ + "\n"@,
        _ => Seq::empty(),
    }
}

/// The defines of the first `n` storage entries.
pub open spec fn storage_entries_text(es: Seq<Json>, n: int) -> Seq<char>
    decreases n,
{
    if n <= 0 {
        Seq::empty()
    } else {
        storage_entries_text(es, n - 1) + storage_entry_text(es[n - 1])
    }
}

/// The storage defines of a contract: those of each entry of
/// `storageLayout.storage`, where that is an array.
pub open spec fn storage_text(props: Json) -> Seq<char> {
    match member(props, "storageLayout"@) {
        Some(layout) => match member(layout, "storage"@) {
            Some(Json::Array(es)) => storage_entries_text(es@, es@.len() as int),
            _ => Seq::empty(),
        },
        None => Seq::empty(),
    }
}

/// The functions of a contract's `abi` member as alloy reads them; none where
/// the member is absent or no valid ABI.
pub open spec fn abi_model(props: Json) -> Seq<(Seq<char>, Seq<Seq<char>>)> {
    match member(props, "abi"@) {
        Some(abi) => match abi_functions_of(json_text(abi)) {
            Some(s) => s,
            None => Seq::empty(),
        },
        None => Seq::empty(),
    }
}

/// The body of a contract's header: declarations in order of signature, a
/// blank line where there are any, then the storage defines.
pub open spec fn header_body(props: Json) -> Seq<char> {
    let s = sorted_by_signature(abi_model(props));
    let d = declarations(s, s.len() as int);
    (if d.len() > 0 { d + "\n"@ } else { d }) + storage_text(props)
}

/// The body of a contract's router: the dispatch chain in order of signature.
pub open spec fn router_body(props: Json) -> Seq<char> {
    let s = sorted_by_signature(abi_model(props));
    dispatch_chain(s, s.len() as int)
}

/// The header's guard macro.
pub open spec fn guard_name(file: Seq<char>, contract: Seq<char>) -> Seq<char> {
    "__"@ + crate::text::upper_of(file) + "_"@ + crate::text::upper_of(contract) + "_"@
}

/// The start of a preprocessor line that pulls in another file.
pub open spec fn inc_directive() -> Seq<char> {
    "#inc"@ + "lude "@
}

/// The whole header file around its body.
pub open spec fn header_file(file: Seq<char>, contract: Seq<char>, body: Seq<char>) -> Seq<char> {
    let g = guard_name(file, contract);
    " // Stylus contract bindings\n#ifndef "@ + g + "\n#define "@ + g + "\n\n"@ + inc_directive()
        + "<stylus.h>\n\n#ifdef __cplusplus\n"@ + "ext"@ + "ern \"C\" {\n#endif\n\n"@ + body
        + "\n\n#ifdef __cplusplus\n}\n#endif\n\n#endif // "@ + g + "\n"@
}

/// The whole router file around its body.
pub open spec fn router_file(contract: Seq<char>, body: Seq<char>) -> Seq<char> {
    " // Stylus contract bindings\n\n"@ + inc_directive() + "\""@ + contract + ".h\"\n"@
        + inc_directive() + "<stylus.h>\n"@ + inc_directive() + "<bebi.h>\n\nArbResult "@
        + contract + "_entry(uint8_t *input, size_t len) {\n    ArbResult err = {Failure, 0, 0};\n    if (len < 4) {\n        return err;\n    }\n    uint32_t selector = bebi_get_u32(input, 0);\n    input +=4;\n    len -=4;\n"@
        + body + "\n    return err;\n}\n\nENTRYPOINT("@ + contract + "_entry)\n"@
}

/// The files of one contract, each as its directory, its name and its text:
/// the header where its body is not empty, then the router where there is
/// any function.
pub open spec fn contract_outputs(file: Seq<char>, contract: Seq<char>, props: Json) -> Seq<
    (Seq<char>, Seq<char>, Seq<char>),
> {
    let hb = header_body(props);
    let rb = router_body(props);
    (if hb.len() > 0 {
        seq![(file, contract + ".h"@, header_file(file, contract, hb))]
    } else {
        Seq::empty()
    }) + (if rb.len() > 0 {
        seq![(file, contract + "_main.c"@, router_file(contract, rb))]
    } else {
        Seq::empty()
    })
}

/// A generated file, to be written as `<dir>/<name>` under the output root.
pub struct OutputFile {
    pub dir: String,
    pub name: String,
    pub contents: String,
}

/// Directory, name and text of each file.
pub open spec fn file_views(fs: Seq<OutputFile>) -> Seq<(Seq<char>, Seq<char>, Seq<char>)> {
    fs.map_values(|f: OutputFile| (f.dir@, f.name@, f.contents@))
}

/// A part of the input that was skipped, with the path that leads to it.
pub struct Diagnostic {
    pub path: Vec<String>,
    pub reason: String,
}

fn skipped(diags: &mut Vec<Diagnostic>, path: &Vec<String>, reason: &str) {
    diags.push(Diagnostic { path: path.clone(), reason: reason.to_string() });
}

fn extended(path: &Vec<String>, seg: &str) -> (r: Vec<String>) {
    let mut r = path.clone();
    r.push(seg.to_string());
    r
}

/// The functions of a contract's `abi` member, in order of signature.
pub fn contract_functions(props: &Json, path: &Vec<String>, diags: &mut Vec<Diagnostic>) -> (r: Vec<
    AbiFunction,
>)
    ensures
        shapes(r@) == sorted_by_signature(abi_model(*props)),
        all_well_formed(r@),
{
    let fs = match props.get("abi") {
        Some(abi) => {
            let text = abi.to_text();
            match abi_functions(text.as_str()) {
                Some(fs) => fs,
                None => {
                    skipped(diags, &extended(path, "abi"), "not a valid ABI");
                    Vec::new()
                },
            }
        },
        None => {
            skipped(diags, &extended(path, "abi"), "not found");
            Vec::new()
        },
    };
    assert(shapes(fs@) == abi_model(*props)) by {
        if fs@.len() == 0 {
            assert(shapes(fs@) =~= Seq::<(Seq<char>, Seq<Seq<char>>)>::empty());
        }
    }
    sort_by_signature(fs)
}

/// Appends the C identifier of the overload at position `k` of those named `name`.
fn push_c_name(out: &mut String, name: &str, k: usize)
    ensures
        final(out)@ == old(out)@ + c_name(name@, k as nat),
{
    out.append(name);
    if k > 0 {
        out.append("_");
        push_decimal(out, k);
    }
    assert(final(out)@ =~= old(out)@ + c_name(name@, k as nat));
}

/// The declarations and the dispatch chain of functions sorted by signature.
pub fn function_texts(fs: &Vec<AbiFunction>) -> (r: (String, String))
    requires
        all_well_formed(fs@),
    ensures
        r.0@ == declarations(shapes(fs@), fs@.len() as int),
        r.1@ == dispatch_chain(shapes(fs@), fs@.len() as int),
{
    let ghost s = shapes(fs@);
    let mut decls = String::new();
    let mut chain = String::new();
    let mut i: usize = 0;
    while i < fs.len()
        invariant
            s == shapes(fs@),
            all_well_formed(fs@),
            i <= fs@.len(),
            decls@ == declarations(s, i as int),
            chain@ == dispatch_chain(s, i as int),
        decreases fs.len() - i,
    {
        let f = &fs[i];
        let k = overload_position(fs, i);
        proof {
            assert(well_formed(fs@[i as int]));
            assert(s[i as int] == crate::abi::shape_of(fs@[i as int]));
        }
        let ghost d0 = decls@;
        decls.append("#define SELECTOR_");
        push_c_name(&mut decls, f.name.as_str(), k);
        decls.append(" 0x");
        push_hex_padded(&mut decls, f.selector, 8);
        decls.append(" // ");
        decls.append(f.signature.as_str());
        decls.append("\n");
        decls.append("ArbResult ");
        push_c_name(&mut decls, f.name.as_str(), k);
        decls.append("(uint8_t *input, size_t len); // ");
        decls.append(f.signature.as_str());
        decls.append("\n");
        let ghost c0 = chain@;
        chain.append("    if (selector==SELECTOR_");
        push_c_name(&mut chain, f.name.as_str(), k);
        chain.append(") return ");
        push_c_name(&mut chain, f.name.as_str(), k);
        chain.append("(input, len);\n");
        proof {
            let cn = c_name(s[i as int].0, overload_index(s, i as int));
            assert(decls@ =~= d0 + declaration(cn, s[i as int]));
            assert(chain@ =~= c0 + dispatch_line(cn));
        }
        i = i + 1;
    }
    (decls, chain)
}

/// Appends the defines of one storage entry; an entry that lacks a field is
/// reported and adds nothing.
fn push_storage_entry(out: &mut String, e: &Json, path: &Vec<String>, diags: &mut Vec<Diagnostic>)
    ensures
        final(out)@ == old(out)@ + storage_entry_text(*e),
{
    let label = match e.get("label") {
        Some(Json::Str(label)) => label,
        _ => {
            skipped(diags, path, "no label");
            return;
        },
    };
    let slot = match e.get("slot") {
        Some(Json::Str(slot)) => slot,
        _ => {
            skipped(diags, path, "no slot");
            return;
        },
    };
    let offset = match e.get("offset") {
        Some(Json::Number(offset)) => offset,
        _ => {
            skipped(diags, path, "no offset");
            return;
        },
    };
    out.append("#define STORAGE_SLOT_");
    out.append(label.as_str());
    out.append(" ");
    out.append(slot.as_str());
    out.append("\n");
    out.append("#define STORAGE_OFFSET_");
    out.append(label.as_str());
    out.append(" ");
    out.append(offset.as_str());
    out.append("\n");
    assert(final(out)@ =~= old(out)@ + storage_entry_text(*e));
}

/// Appends the storage defines of a contract.
pub fn push_storage(out: &mut String, props: &Json, path: &Vec<String>, diags: &mut Vec<Diagnostic>)
    ensures
        final(out)@ == old(out)@ + storage_text(*props),
{
    let lpath = extended(path, "storageLayout");
    let layout = match props.get("storageLayout") {
        Some(layout) => layout,
        None => {
            skipped(diags, &lpath, "not found");
            assert(final(out)@ =~= old(out)@ + storage_text(*props));
            return;
        },
    };
    let spath = extended(&lpath, "storage");
    match layout.get("storage") {
        Some(Json::Array(es)) => {
            let ghost start = out@;
            let mut i: usize = 0;
            while i < es.len()
                invariant
                    i <= es@.len(),
                    out@ == start + storage_entries_text(es@, i as int),
                decreases es.len() - i,
            {
                push_storage_entry(out, &es[i], &spath, diags);
                proof {
                    assert(out@ =~= start + storage_entries_text(es@, i + 1));
                }
                i = i + 1;
            }
        },
        _ => {
            skipped(diags, &spath, "not an array");
            assert(final(out)@ =~= old(out)@ + storage_text(*props));
        },
    }
}

fn push_inc_directive(out: &mut String)
    ensures
        final(out)@ == old(out)@ + inc_directive(),
{
    out.append("#inc");
    out.append("lude ");
    assert(final(out)@ =~= old(out)@ + inc_directive());
}

/// The header file of a contract around `body`.
pub fn header_text(file: &str, contract: &str, body: &str) -> (r: String)
    ensures
        r@ == header_file(file@, contract@, body@),
{
    let mut g = String::new();
    g.append("__");
    let fu = to_upper(file);
    g.append(fu.as_str());
    g.append("_");
    let cu = to_upper(contract);
    g.append(cu.as_str());
    g.append("_");
    assert(g@ =~= guard_name(file@, contract@));
    let mut out = String::new();
    out.append(" // Stylus contract bindings\n#ifndef ");
    out.append(g.as_str());
    out.append("\n#define ");
    out.append(g.as_str());
    out.append("\n\n");
    push_inc_directive(&mut out);
    out.append("<stylus.h>\n\n#ifdef __cplusplus\n");
    out.append("ext");
    out.append("ern \"C\" {\n#endif\n\n");
    out.append(body);
    out.append("\n\n#ifdef __cplusplus\n}\n#endif\n\n#endif // ");
    out.append(g.as_str());
    out.append("\n");
    assert(out@ =~= header_file(file@, contract@, body@));
    out
}

/// The router file of a contract around `body`.
pub fn router_text(contract: &str, body: &str) -> (r: String)
    ensures
        r@ == router_file(contract@, body@),
{
    let mut out = String::new();
    out.append(" // Stylus contract bindings\n\n");
    push_inc_directive(&mut out);
    out.append("\"");
    out.append(contract);
    out.append(".h\"\n");
    push_inc_directive(&mut out);
    out.append("<stylus.h>\n");
    push_inc_directive(&mut out);
    out.append("<bebi.h>\n\nArbResult ");
    out.append(contract);
    out.append("_entry(uint8_t *input, size_t len) {\n    ArbResult err = {Failure, 0, 0};\n    if (len < 4) {\n        return err;\n    }\n    uint32_t selector = bebi_get_u32(input, 0);\n    input +=4;\n    len -=4;\n");
    out.append(body);
    out.append("\n    return err;\n}\n\nENTRYPOINT(");
    out.append(contract);
    out.append("_entry)\n");
    assert(out@ =~= router_file(contract@, body@));
    out
}

fn joined(a: &str, b: &str) -> (r: String)
    ensures
        r@ == a@ + b@,
{
    let mut r = String::new();
    r.append(a);
    r.append(b);
    r
}

/// Appends the files of one contract, `contract` of source file `file`.
pub fn push_contract_outputs(
    files: &mut Vec<OutputFile>,
    file: &str,
    contract: &str,
    props: &Json,
    path: &Vec<String>,
    diags: &mut Vec<Diagnostic>,
)
    ensures
        file_views(final(files)@) == file_views(old(files)@) + contract_outputs(file@, contract@, *props),
{
    let ghost start = file_views(files@);
    if !matches!(props, Json::Object(_)) {
        skipped(diags, path, "not an object");
        assert(contract_outputs(file@, contract@, *props) =~= Seq::empty());
        assert(file_views(files@) =~= start + contract_outputs(file@, contract@, *props));
        return;
    }
    let fs = contract_functions(props, path, diags);
    let (decls, chain) = function_texts(&fs);
    let mut body = decls;
    if body.unicode_len() != 0 {
        body.append("\n");
    }
    push_storage(&mut body, props, path, diags);
    proof {
        assert(body@ =~= header_body(*props));
        assert(chain@ == router_body(*props));
    }
    if body.unicode_len() != 0 {
        let contents = header_text(file, contract, body.as_str());
        files.push(OutputFile {
            dir: file.to_owned(),
            name: joined(contract, ".h"),
            contents,
        });
    }
    if chain.unicode_len() != 0 {
        let contents = router_text(contract, chain.as_str());
        files.push(OutputFile {
            dir: file.to_owned(),
            name: joined(contract, "_main.c"),
            contents,
        });
    }
    assert(file_views(files@) =~= start + contract_outputs(file@, contract@, *props));
}

/// The files of the first `n` contracts of source file `file`.
pub open spec fn contracts_outputs(file: Seq<char>, cs: Seq<(String, Json)>, n: int) -> Seq<
    (Seq<char>, Seq<char>, Seq<char>),
>
    decreases n,
{
    if n <= 0 {
        Seq::empty()
    } else {
        contracts_outputs(file, cs, n - 1) + contract_outputs(file, cs[n - 1].0@, cs[n - 1].1)
    }
}

/// The files of a source file's entry: those of each of its contracts, where
/// it is an object.
pub open spec fn source_outputs(file: Seq<char>, v: Json) -> Seq<(Seq<char>, Seq<char>, Seq<char>)> {
    match v {
        Json::Object(cs) => contracts_outputs(file, cs@, cs@.len() as int),
        _ => Seq::empty(),
    }
}

/// The files of the first `n` source files.
pub open spec fn sources_outputs(es: Seq<(String, Json)>, n: int) -> Seq<(Seq<char>, Seq<char>, Seq<char>)>
    decreases n,
{
    if n <= 0 {
        Seq::empty()
    } else {
        sources_outputs(es, n - 1) + source_outputs(es[n - 1].0@, es[n - 1].1)
    }
}

/// The entries of the document's `contracts` object, where it has one.
pub open spec fn contracts_member(doc: Json) -> Option<Seq<(String, Json)>> {
    match member(doc, "contracts"@) {
        Some(Json::Object(es)) => Some(es@),
        _ => None,
    }
}

/// The files of every contract of a document, in document order.
pub open spec fn document_outputs(doc: Json) -> Seq<(Seq<char>, Seq<char>, Seq<char>)> {
    match contracts_member(doc) {
        Some(es) => sources_outputs(es, es.len() as int),
        None => Seq::empty(),
    }
}

/// Why a document cannot be processed at all.
pub enum GenerateError {
    /// The document has no `contracts` object.
    MissingContracts,
}

/// What a run produces: the files to write and the parts that were skipped.
pub struct Generation {
    pub files: Vec<OutputFile>,
    pub diagnostics: Vec<Diagnostic>,
}

/// The files for every contract of a compiler output document.
pub fn generate(doc: &Json) -> (r: Result<Generation, GenerateError>)
    ensures
        match r {
            Ok(g) => contracts_member(*doc) is Some && file_views(g.files@) == document_outputs(*doc),
            Err(_) => contracts_member(*doc) is None,
        },
{
    let sources = match doc.get("contracts") {
        Some(Json::Object(es)) => es,
        _ => return Err(GenerateError::MissingContracts),
    };
    let mut files: Vec<OutputFile> = Vec::new();
    let mut diags: Vec<Diagnostic> = Vec::new();
    let mut i: usize = 0;
    while i < sources.len()
        invariant
            contracts_member(*doc) == Some(sources@),
            i <= sources@.len(),
            file_views(files@) == sources_outputs(sources@, i as int),
        decreases sources.len() - i,
    {
        let (file, entry) = (&sources[i].0, &sources[i].1);
        let fpath = vec![file.clone()];
        let ghost before = file_views(files@);
        match entry {
            Json::Object(cs) => {
                let mut k: usize = 0;
                while k < cs.len()
                    invariant
                        k <= cs@.len(),
                        file_views(files@) == before + contracts_outputs(file@, cs@, k as int),
                    decreases cs.len() - k,
                {
                    let cpath = extended(&fpath, cs[k].0.as_str());
                    push_contract_outputs(&mut files, file.as_str(), cs[k].0.as_str(), &cs[k].1, &cpath, &mut diags);
                    proof {
                        assert(file_views(files@) =~= before + contracts_outputs(file@, cs@, k + 1));
                    }
                    k = k + 1;
                }
            },
            _ => {
                skipped(&mut diags, &fpath, "not an object");
            },
        }
        proof {
            assert(file_views(files@) =~= sources_outputs(sources@, i + 1));
        }
        i = i + 1;
    }
    Ok(Generation { files, diagnostics: diags })
}

} // verus!
