//! The fragment-buffer assembler. Each public method both performs a text
//! transformation on the caller's ordered fragment buffer and is specified
//! by a spec-level model of that transformation over `Seq<Seq<char>>`.

use vstd::prelude::*;
use vstd::string::StrSliceExecFns;
use vstd::string::StringExecFns;
use convert_case::Case;
use convert_case::Casing;
use crate::descriptor::DojoContract;
use crate::descriptor::Function;
use crate::descriptor::display_name;
use crate::descriptor::js_type;
use crate::descriptor::js_type_text;
use crate::descriptor::short_name;
use crate::descriptor::short_type_name;
use crate::text::any_with;
use crate::text::buffer_has;
use crate::text::find_fragment;
use crate::text::first_with;
use crate::text::has_char;
use crate::text::last_char_at;
use crate::text::lemma_first_with;
use crate::text::lemma_last_char_exists;
use crate::text::lemma_prefix_occurs;
use crate::text::occurs_in;
use crate::text::rfind_char;

verus! {

/// The camelCased form of an identifier, as convert_case produces it.
pub uninterp spec fn camel_of(s: Seq<char>) -> Seq<char>;

/// Relies on convert_case's `Casing::to_case` with `Case::Camel`: the
/// camelCased form of an identifier, a pure function of its characters.
#[verifier::external_body]
fn to_camel(s: &str) -> (r: String)
    ensures
        r@ == camel_of(s@),
{
    s.to_case(Case::Camel)
}

/// The error type of the generation entry point. Generation is total:
/// no call of `generate` returns it.
pub enum BindgenError {
    Failure,
}

pub type BindgenResult<T> = Result<T, BindgenError>;

/// The marker by which the import block is recognized.
pub open spec fn import_marker() -> Seq<char> {
    "import { DojoProvider } from "@
}

/// The provider-type import line.
pub open spec fn import_provider() -> Seq<char> {
    "import { DojoProvider } from \"@dojoengine/core\";"@
}

/// The account-type import line.
pub open spec fn import_account() -> Seq<char> {
    "import { Account } from \"starknet\";"@
}

/// The models-namespace import line.
pub open spec fn import_models() -> Seq<char> {
    "import * as models from \"./models.gen\";\n"@
}

/// The marker by which the terminal export fragment is recognized.
pub open spec fn ret_marker() -> Seq<char> {
    "\treturn {"@
}

/// The wrapper preamble before the display name.
pub open spec fn header_open() -> Seq<char> {
    "export async function setupWorld(provider: DojoProvider) {\n\tconst contractName = \""@
}

/// The wrapper preamble after the display name.
pub open spec fn header_close() -> Seq<char> {
    "\";\n"@
}

/// The wrapper preamble fragment for a contract.
pub open spec fn header_text(c: DojoContract) -> Seq<char> {
    header_open() + display_name(c.tag@) + header_close()
}

/// The body fragment before the camelCased binding name.
pub open spec fn body_open() -> Seq<char> {
    "\tconst "@
}

/// The body fragment between the binding name and the parameter list.
pub open spec fn body_async() -> Seq<char> {
    " = async ("@
}

/// The body fragment between the parameter list and the entry-point name.
pub open spec fn body_mid() -> Seq<char> {
    ") => {\n\t\ttry {\n\t\t\treturn await provider.execute(\n\n\t\t\t\taccount,\n\t\t\t\t{\n\t\t\t\t\tcontractName,\n\t\t\t\t\tentryPoint: \""@
}

/// The body fragment between the entry-point name and the calldata list.
pub open spec fn body_cd() -> Seq<char> {
    "\",\n\t\t\t\t\tcalldata: ["@
}

/// The body fragment after the calldata list.
pub open spec fn body_close() -> Seq<char> {
    "],\n\t\t\t\t}\n\t\t\t);\n\t\t} catch (error) {\n\t\t\tconsole.error(error);\n\t\t}\n\t};\n"@
}

/// The export fragment before its first member.
pub open spec fn export_open() -> Seq<char> {
    "\treturn {\n\t\t"@
}

/// The export fragment after its last member.
pub open spec fn export_close() -> Seq<char> {
    ",\n\t};\n}"@
}

/// The text put before each member appended to the export fragment.
pub open spec fn member_open() -> Seq<char> {
    "\n\t\t"@
}

/// The views of the `(parameter name, type path)` pairs of a descriptor.
pub open spec fn input_views(inputs: Seq<(String, String)>) -> Seq<(Seq<char>, Seq<char>)> {
    Seq::new(inputs.len(), |i: int| (inputs[i].0@, inputs[i].1@))
}

/// The parameter-list text contributed by the inputs themselves.
pub open spec fn inputs_tail(ins: Seq<(Seq<char>, Seq<char>)>) -> Seq<char>
    decreases ins.len(),
{
    if ins.len() == 0 {
        Seq::<char>::empty()
    } else {
        ", "@ + ins[0].0 + ": "@ + js_type_text(short_type_name(ins[0].1)) + inputs_tail(
            ins.drop_first(),
        )
    }
}

/// The full parameter-list text: the mandatory caller account, then one
/// `name: MappedType` entry per input, comma separated.
pub open spec fn inputs_text(ins: Seq<(Seq<char>, Seq<char>)>) -> Seq<char> {
    "account: Account"@ + inputs_tail(ins)
}

/// The calldata text contributed after the first parameter name.
pub open spec fn calldata_tail(ins: Seq<(Seq<char>, Seq<char>)>) -> Seq<char>
    decreases ins.len(),
{
    if ins.len() == 0 {
        Seq::<char>::empty()
    } else {
        ", "@ + ins[0].0 + calldata_tail(ins.drop_first())
    }
}

/// The calldata text: the parameter names only, comma separated.
pub open spec fn calldata_text(ins: Seq<(Seq<char>, Seq<char>)>) -> Seq<char> {
    if ins.len() == 0 {
        Seq::<char>::empty()
    } else {
        ins[0].0 + calldata_tail(ins.drop_first())
    }
}

/// The body fragment generated for one function descriptor.
pub open spec fn body_text(f: Function) -> Seq<char> {
    body_open() + camel_of(f.name@) + body_async() + inputs_text(input_views(f.inputs@))
        + body_mid() + f.name@ + body_cd() + calldata_text(input_views(f.inputs@))
        + body_close()
}

/// A fresh export fragment with a single member.
pub open spec fn export_new_text(camel: Seq<char>) -> Seq<char> {
    export_open() + camel + export_close()
}

/// An export fragment with one more member spliced in after its last comma.
pub open spec fn patched_export(s: Seq<char>, camel: Seq<char>) -> Seq<char> {
    let k = last_char_at(s, ',');
    s.subrange(0, k + 1) + member_open() + camel + ","@ + s.subrange(k + 1, s.len() as int)
}

/// What the import step does to the buffer.
pub open spec fn imports_step(b: Seq<Seq<char>>) -> Seq<Seq<char>> {
    if any_with(b, import_marker()) {
        b
    } else {
        seq![import_provider(), import_account(), import_models()] + b
    }
}

/// What the preamble step does to the buffer.
pub open spec fn preamble_step(b: Seq<Seq<char>>, c: DojoContract) -> Seq<Seq<char>> {
    if any_with(b, header_text(c)) {
        b
    } else {
        b.push(header_text(c))
    }
}

/// What the body-placement step does to the buffer: before the trailing two
/// fragments when the buffer has grown past the preamble by more than two,
/// else directly after the preamble.
pub open spec fn body_step(b: Seq<Seq<char>>, idx: int, body: Seq<char>) -> Seq<Seq<char>> {
    let pos: int = if b.len() - idx > 2 {
        b.len() - 2
    } else {
        idx
    };
    b.insert(pos + 1, body)
}

/// What the terminal-export step does to the buffer.
pub open spec fn export_step(b: Seq<Seq<char>>, camel: Seq<char>) -> Seq<Seq<char>> {
    if !any_with(b, ret_marker()) {
        b.push(export_new_text(camel))
    } else {
        let j = first_with(b, ret_marker());
        b.update(j, patched_export(b[j], camel))
    }
}

/// What one full generation call does to the buffer.
pub open spec fn generate_step(c: DojoContract, f: Function, b: Seq<Seq<char>>) -> Seq<
    Seq<char>,
> {
    let b1 = imports_step(b);
    let b2 = preamble_step(b1, c);
    let idx = first_with(b2, header_text(c));
    let b3 = body_step(b2, idx, body_text(f));
    export_step(b3, camel_of(f.name@))
}

/// Every fragment of `b` in which the export marker occurs holds a comma,
/// so that the in-place export rewrite can find its splice point.
pub open spec fn exports_patchable(b: Seq<Seq<char>>) -> bool {
    forall|j: int| 0 <= j < b.len() && occurs_in(#[trigger] b[j], ret_marker()) ==> has_char(
        b[j],
        ',',
    )
}

/// The assembler. It keeps no state of its own: all state lives in the
/// caller's fragment buffer.
pub struct TsFunctionGenerator {}

impl TsFunctionGenerator {
    /// Insert the three import lines at positions 0, 1, 2 unless some
    /// fragment already holds the provider-import marker.
    pub fn check_imports(&self, buffer: &mut Vec<String>)
        ensures
            final(buffer).deep_view() == imports_step(old(buffer).deep_view()),
    {
        if !buffer_has(buffer, "import { DojoProvider } from ") {
            buffer.insert(0, String::from_str("import { DojoProvider } from \"@dojoengine/core\";"));
            buffer.insert(1, String::from_str("import { Account } from \"starknet\";"));
            buffer.insert(2, String::from_str("import * as models from \"./models.gen\";\n"));
            proof {
                assert(buffer.deep_view() =~~= imports_step(old(buffer).deep_view()));
            }
        }
    }

    /// Append the wrapper preamble for this contract unless a fragment
    /// already holds it, and give back the index of the fragment that does.
    pub fn setup_function_wrapper_start(
        &self,
        contract: &DojoContract,
        buffer: &mut Vec<String>,
    ) -> (idx: usize)
        ensures
            final(buffer).deep_view() == preamble_step(old(buffer).deep_view(), *contract),
            idx as int == first_with(final(buffer).deep_view(), header_text(*contract)),
            idx < final(buffer).len(),
    {
        let mut header = String::from_str(
            "export async function setupWorld(provider: DojoProvider) {\n\tconst contractName = \"",
        );
        let name = crate::descriptor::get_name_from_tag(contract.tag.as_str());
        header.append(name.as_str());
        header.append("\";\n");
        proof {
            assert(header@ == header_text(*contract));
        }
        if !buffer_has(buffer, header.as_str()) {
            buffer.push(header.clone());
            proof {
                assert(buffer.deep_view() =~~= preamble_step(
                    old(buffer).deep_view(),
                    *contract,
                ));
                let b = buffer.deep_view();
                assert(b[b.len() - 1] == header_text(*contract));
                assert(header_text(*contract).subrange(
                    0,
                    header_text(*contract).len() as int,
                ) =~= header_text(*contract));
                lemma_prefix_occurs(b[b.len() - 1], header_text(*contract));
                assert(any_with(b, header_text(*contract)));
            }
        }
        let idx = find_fragment(buffer, header.as_str());
        proof {
            lemma_first_with(buffer.deep_view(), header_text(*contract));
        }
        idx
    }

    /// The parameter-list text of a function: the mandatory caller account,
    /// then one `name: MappedType` entry per input.
    pub fn format_function_inputs(&self, token: &Function) -> (r: String)
        ensures
            r@ == inputs_text(input_views(token.inputs@)),
    {
        let ghost ins = input_views(token.inputs@);
        let mut acc = String::from_str("account: Account");
        let n = token.inputs.len();
        proof {
            assert(ins.skip(0) =~= ins);
        }
        let mut i: usize = 0;
        while i < n
            invariant
                n == token.inputs@.len(),
                ins == input_views(token.inputs@),
                0 <= i <= n,
                acc@ + inputs_tail(ins.skip(i as int)) == inputs_text(ins),
            decreases n - i,
        {
            acc.append(", ");
            acc.append(token.inputs[i].0.as_str());
            acc.append(": ");
            let short = short_name(token.inputs[i].1.as_str());
            let mapped = js_type(short.as_str());
            acc.append(mapped.as_str());
            proof {
                assert(ins.skip(i as int).drop_first() =~= ins.skip(i + 1));
                assert(ins.skip(i as int)[0] == ins[i as int]);
                assert(acc@ + inputs_tail(ins.skip(i + 1)) =~= inputs_text(ins));
            }
            i += 1;
        }
        proof {
            assert(inputs_tail(ins.skip(n as int)) =~= Seq::<char>::empty());
            assert(acc@ =~= inputs_text(ins));
        }
        acc
    }

    /// The calldata text of a function: its parameter names, in input order.
    pub fn format_function_calldata(&self, token: &Function) -> (r: String)
        ensures
            r@ == calldata_text(input_views(token.inputs@)),
    {
        let ghost ins = input_views(token.inputs@);
        let mut acc = String::new();
        let n = token.inputs.len();
        if n == 0 {
            return acc;
        }
        acc.append(token.inputs[0].0.as_str());
        proof {
            assert(ins.drop_first() =~= ins.skip(1));
            assert(Seq::<char>::empty() + ins[0].0 =~= ins[0].0);
        }
        let mut i: usize = 1;
        while i < n
            invariant
                n == token.inputs@.len(),
                1 <= i <= n,
                ins == input_views(token.inputs@),
                acc@ + calldata_tail(ins.skip(i as int)) == calldata_text(ins),
            decreases n - i,
        {
            acc.append(", ");
            acc.append(token.inputs[i].0.as_str());
            proof {
                assert(ins.skip(i as int).drop_first() =~= ins.skip(i + 1));
                assert(ins.skip(i as int)[0] == ins[i as int]);
                assert(acc@ + calldata_tail(ins.skip(i + 1)) =~= calldata_text(ins));
            }
            i += 1;
        }
        proof {
            assert(calldata_tail(ins.skip(n as int)) =~= Seq::<char>::empty());
            assert(acc@ =~= calldata_text(ins));
        }
        acc
    }

    /// The full body fragment generated for one function descriptor.
    pub fn generate_system_function(&self, token: &Function) -> (r: String)
        ensures
            r@ == body_text(*token),
    {
        let mut s = String::from_str("\tconst ");
        let camel = to_camel(token.name.as_str());
        s.append(camel.as_str());
        s.append(" = async (");
        let ins = self.format_function_inputs(token);
        s.append(ins.as_str());
        s.append(
            ") => {\n\t\ttry {\n\t\t\treturn await provider.execute(\n\n\t\t\t\taccount,\n\t\t\t\t{\n\t\t\t\t\tcontractName,\n\t\t\t\t\tentryPoint: \"",
        );
        s.append(token.name.as_str());
        s.append("\",\n\t\t\t\t\tcalldata: [");
        let cd = self.format_function_calldata(token);
        s.append(cd.as_str());
        s.append(
            "],\n\t\t\t\t}\n\t\t\t);\n\t\t} catch (error) {\n\t\t\tconsole.error(error);\n\t\t}\n\t};\n",
        );
        proof {
            assert(s@ =~= body_text(*token));
        }
        s
    }

    /// Insert a body fragment relative to the preamble at `idx`: directly
    /// after it, or, once the buffer has grown past it by more than two
    /// fragments, immediately before the trailing two fragments.
    pub fn append_function_body(&self, idx: usize, buffer: &mut Vec<String>, body: String)
        requires
            idx < old(buffer).len(),
        ensures
            final(buffer).deep_view() == body_step(old(buffer).deep_view(), idx as int, body@),
    {
        let pos: usize = if buffer.len() - idx > 2 {
            buffer.len() - 2
        } else {
            idx
        };
        buffer.insert(pos + 1, body);
        proof {
            assert(buffer.deep_view() =~~= body_step(
                old(buffer).deep_view(),
                idx as int,
                body@,
            ));
        }
    }

    /// Create the terminal export fragment on the first call; on every later
    /// call splice the new member in after the fragment's last comma. The
    /// fragment to be rewritten must hold a comma — the splice point — which
    /// every fragment this assembler creates does.
    pub fn setup_function_wrapper_end(&self, token: &Function, buffer: &mut Vec<String>)
        requires
            any_with(old(buffer).deep_view(), ret_marker()) ==> has_char(
                old(buffer).deep_view()[first_with(old(buffer).deep_view(), ret_marker())],
                ',',
            ),
        ensures
            final(buffer).deep_view() == export_step(
                old(buffer).deep_view(),
                camel_of(token.name@),
            ),
    {
        let camel = to_camel(token.name.as_str());
        proof {
            lemma_first_with(old(buffer).deep_view(), ret_marker());
        }
        let j = find_fragment(buffer, "\treturn {");
        if j == buffer.len() {
            let mut e = String::from_str("\treturn {\n\t\t");
            e.append(camel.as_str());
            e.append(",\n\t};\n}");
            buffer.push(e);
            proof {
                assert(buffer.deep_view() =~~= export_step(
                    old(buffer).deep_view(),
                    camel_of(token.name@),
                ));
            }
        } else {
            let frag = buffer.remove(j);
            proof {
                assert(frag@ == old(buffer).deep_view()[j as int]);
            }
            let n = frag.unicode_len();
            let k = rfind_char(frag.as_str(), ',');
            proof {
                lemma_last_char_exists(frag@, ',');
            }
            let mut e = String::from_str(frag.as_str().substring_char(0, k + 1));
            e.append("\n\t\t");
            e.append(camel.as_str());
            e.append(",");
            e.append(frag.as_str().substring_char(k + 1, n));
            buffer.insert(j, e);
            proof {
                assert(e@ == patched_export(frag@, camel_of(token.name@)));
                assert(buffer.deep_view() =~~= export_step(
                    old(buffer).deep_view(),
                    camel_of(token.name@),
                ));
            }
        }
    }

    /// One full generation call for one function of one contract: imports,
    /// preamble, body placement, terminal export. Always succeeds; its real
    /// output is the buffer mutation.
    pub fn generate(
        &self,
        contract: &DojoContract,
        token: &Function,
        buffer: &mut Vec<String>,
    ) -> (r: BindgenResult<String>)
        requires
            exports_patchable(old(buffer).deep_view()),
            occurs_in(header_text(*contract), ret_marker()) ==> has_char(
                header_text(*contract),
                ',',
            ),
        ensures
            final(buffer).deep_view() == generate_step(*contract, *token, old(buffer).deep_view()),
            r matches Ok(s) && s@ == Seq::<char>::empty(),
    {
        self.check_imports(buffer);
        let idx = self.setup_function_wrapper_start(contract, buffer);
        let body = self.generate_system_function(token);
        self.append_function_body(idx, buffer, body);
        proof {
            lemma_generate_patchable(
                *contract,
                *token,
                old(buffer).deep_view(),
                buffer.deep_view(),
                idx as int,
            );
            lemma_first_with(buffer.deep_view(), ret_marker());
        }
        self.setup_function_wrapper_end(token, buffer);
        Ok(String::new())
    }
}

/// The import lines hold no tab character, so no marker that begins with a
/// tab occurs in them.
proof fn lemma_import_lines_no_tab()
    ensures
        forall|k: int| 0 <= k < import_provider().len() ==> import_provider()[k] != '\t',
        forall|k: int| 0 <= k < import_account().len() ==> import_account()[k] != '\t',
        forall|k: int| 0 <= k < import_models().len() ==> import_models()[k] != '\t',
{
    reveal_strlit("import { DojoProvider } from \"@dojoengine/core\";");
    reveal_strlit("import { Account } from \"starknet\";");
    reveal_strlit("import * as models from \"./models.gen\";\n");
}

/// The export marker begins with a tab.
proof fn lemma_ret_marker_head()
    ensures
        ret_marker().len() == 9,
        ret_marker()[0] == '\t',
{
    reveal_strlit("\treturn {");
}

/// The export marker does not occur in any of the three import lines.
pub proof fn lemma_imports_no_ret_marker()
    ensures
        !occurs_in(import_provider(), ret_marker()),
        !occurs_in(import_account(), ret_marker()),
        !occurs_in(import_models(), ret_marker()),
{
    lemma_import_lines_no_tab();
    lemma_ret_marker_head();
    crate::text::lemma_first_char_absent(import_provider(), ret_marker());
    crate::text::lemma_first_char_absent(import_account(), ret_marker());
    crate::text::lemma_first_char_absent(import_models(), ret_marker());
}

/// If `c` occurs in either part, it occurs in the concatenation.
pub proof fn lemma_has_char_append(a: Seq<char>, b: Seq<char>, c: char)
    requires
        has_char(a, c) || has_char(b, c),
    ensures
        has_char(a + b, c),
{
    if has_char(a, c) {
        let k = choose|k: int| 0 <= k < a.len() && a[k] == c;
        assert((a + b)[k] == c);
    } else {
        let k = choose|k: int| 0 <= k < b.len() && b[k] == c;
        assert((a + b)[a.len() + k] == c);
    }
}

/// Every generated body fragment holds a comma.
pub proof fn lemma_body_has_comma(f: Function)
    ensures
        has_char(body_text(f), ','),
{
    reveal_strlit(
        "],\n\t\t\t\t}\n\t\t\t);\n\t\t} catch (error) {\n\t\t\tconsole.error(error);\n\t\t}\n\t};\n",
    );
    assert(body_close()[1] == ',');
    assert(has_char(body_close(), ','));
    lemma_has_char_append(
        body_open() + camel_of(f.name@) + body_async() + inputs_text(input_views(f.inputs@))
            + body_mid() + f.name@ + body_cd() + calldata_text(input_views(f.inputs@)),
        body_close(),
        ',',
    );
    assert(body_text(f) == (body_open() + camel_of(f.name@) + body_async() + inputs_text(
        input_views(f.inputs@),
    ) + body_mid() + f.name@ + body_cd() + calldata_text(input_views(f.inputs@)))
        + body_close());
}

/// After imports, preamble and body placement, every fragment in which the
/// export marker occurs holds a comma, provided that held of the original
/// buffer and of the contract's preamble.
proof fn lemma_generate_patchable(
    c: DojoContract,
    f: Function,
    b0: Seq<Seq<char>>,
    b3: Seq<Seq<char>>,
    idx: int,
)
    requires
        exports_patchable(b0),
        occurs_in(header_text(c), ret_marker()) ==> has_char(header_text(c), ','),
        idx == first_with(preamble_step(imports_step(b0), c), header_text(c)),
        0 <= idx < preamble_step(imports_step(b0), c).len(),
        b3 == body_step(preamble_step(imports_step(b0), c), idx, body_text(f)),
    ensures
        exports_patchable(b3),
{
    let b1 = imports_step(b0);
    let b2 = preamble_step(b1, c);
    lemma_imports_no_ret_marker();
    lemma_body_has_comma(f);
    assert(exports_patchable(b1)) by {
        if !any_with(b0, import_marker()) {
            assert forall|j: int|
                0 <= j < b1.len() && occurs_in(#[trigger] b1[j], ret_marker()) implies has_char(
                b1[j],
                ',',
            ) by {
                if j >= 3 {
                    assert(b1[j] == b0[j - 3]);
                }
            }
        }
    }
    assert(exports_patchable(b2)) by {
        if !any_with(b1, header_text(c)) {
            assert forall|j: int|
                0 <= j < b2.len() && occurs_in(#[trigger] b2[j], ret_marker()) implies has_char(
                b2[j],
                ',',
            ) by {
                if j < b1.len() {
                    assert(b2[j] == b1[j]);
                } else {
                    assert(b2[j] == header_text(c));
                }
            }
        }
    }
    let pos: int = if b2.len() - idx > 2 {
        b2.len() - 2
    } else {
        idx
    };
    b2.insert_ensures(pos + 1, body_text(f));
    assert forall|j: int|
        0 <= j < b3.len() && occurs_in(#[trigger] b3[j], ret_marker()) implies has_char(
        b3[j],
        ',',
    ) by {
        if j < pos + 1 {
            assert(b3[j] == b2[j]);
        } else if j == pos + 1 {
            assert(b3[j] == body_text(f));
        } else {
            assert(b3[j] == b2[j - 1]);
        }
    }
}

} // verus!
