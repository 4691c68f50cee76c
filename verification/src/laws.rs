//! Properties of the assembler across calls, stated over the spec-level
//! models and proved once for all inputs: import idempotence, preamble
//! uniqueness, body ordering, export accumulation, and determinism.

use vstd::prelude::*;
use crate::descriptor::DojoContract;
use crate::descriptor::Function;
use crate::generator::body_step;
use crate::generator::body_text;
use crate::generator::camel_of;
use crate::generator::export_new_text;
use crate::generator::export_step;
use crate::generator::generate_step;
use crate::generator::header_text;
use crate::generator::import_account;
use crate::generator::import_marker;
use crate::generator::import_models;
use crate::generator::import_provider;
use crate::generator::imports_step;
use crate::generator::input_views;
use crate::generator::lemma_imports_no_ret_marker;
use crate::generator::member_open;
use crate::generator::patched_export;
use crate::generator::preamble_step;
use crate::generator::ret_marker;
use crate::text::any_with;
use crate::text::first_with;
use crate::text::last_char_at;
use crate::text::lemma_first_with_is;
use crate::text::lemma_last_char_concat;
use crate::text::lemma_needle_too_long;
use crate::text::lemma_prefix_occurs;
use crate::text::occurs_at;
use crate::text::occurs_in;

verus! {

/// The camelCased identifiers of a sequence of function descriptors.
pub open spec fn camels_of(fs: Seq<Function>) -> Seq<Seq<char>> {
    fs.map(|i: int, f: Function| camel_of(f.name@))
}

/// The body fragments of a sequence of function descriptors.
pub open spec fn bodies_of(fs: Seq<Function>) -> Seq<Seq<char>> {
    fs.map(|i: int, f: Function| body_text(f))
}

/// One `\n\t\t<member>,` entry per export member, in order, each once.
pub open spec fn members_text(camels: Seq<Seq<char>>) -> Seq<char>
    decreases camels.len(),
{
    if camels.len() == 0 {
        Seq::<char>::empty()
    } else {
        members_text(camels.drop_last()) + member_open() + camels.last() + ","@
    }
}

/// The closing text of the export fragment.
pub open spec fn export_tail() -> Seq<char> {
    "\n\t};\n}"@
}

/// The terminal export fragment that lists `camels`, each once, in order.
pub open spec fn export_closed(camels: Seq<Seq<char>>) -> Seq<char> {
    ret_marker() + members_text(camels) + export_tail()
}

/// The buffer that generating the functions `fs`, in order, for contract
/// `c` into an empty buffer leaves behind: the three import lines, the
/// preamble, one body fragment per function in order, and the export.
pub open spec fn assembled(c: DojoContract, fs: Seq<Function>) -> Seq<Seq<char>>
    recommends
        fs.len() >= 1,
{
    seq![import_provider(), import_account(), import_models(), header_text(c)] + bodies_of(fs)
        + seq![export_closed(camels_of(fs))]
}

/// Successive generation calls, folded over the buffer model.
pub open spec fn run_model(c: DojoContract, fs: Seq<Function>, b: Seq<Seq<char>>) -> Seq<
    Seq<char>,
>
    decreases fs.len(),
{
    if fs.len() == 0 {
        b
    } else {
        generate_step(c, fs.last(), run_model(c, fs.drop_last(), b))
    }
}

/// The generated texts of `f` under `c` do not themselves hold the marker
/// texts by which existing fragments are recognized.
pub open spec fn benign_function(c: DojoContract, f: Function) -> bool {
    &&& !occurs_in(body_text(f), ret_marker())
    &&& !occurs_in(body_text(f), header_text(c))
}

/// The contract's preamble does not hold the export marker.
pub open spec fn benign_contract(c: DojoContract) -> bool {
    !occurs_in(header_text(c), ret_marker())
}

/// Every function of `fs` is benign under `c`.
pub open spec fn all_benign(c: DojoContract, fs: Seq<Function>) -> bool {
    forall|i: int| 0 <= i < fs.len() ==> benign_function(c, #[trigger] fs[i])
}

/// The provider import line begins with the import marker.
proof fn lemma_provider_has_marker()
    ensures
        occurs_in(import_provider(), import_marker()),
{
    reveal_strlit("import { DojoProvider } from \"@dojoengine/core\";");
    reveal_strlit("import { DojoProvider } from ");
    assert(import_provider().subrange(0, import_marker().len() as int) =~= import_marker());
    lemma_prefix_occurs(import_provider(), import_marker());
}

/// The preamble is longer than each import line, so it occurs in none.
proof fn lemma_imports_no_header(c: DojoContract)
    ensures
        !occurs_in(import_provider(), header_text(c)),
        !occurs_in(import_account(), header_text(c)),
        !occurs_in(import_models(), header_text(c)),
{
    reveal_strlit(
        "export async function setupWorld(provider: DojoProvider) {\n\tconst contractName = \"",
    );
    reveal_strlit("\";\n");
    reveal_strlit("import { DojoProvider } from \"@dojoengine/core\";");
    reveal_strlit("import { Account } from \"starknet\";");
    reveal_strlit("import * as models from \"./models.gen\";\n");
    lemma_needle_too_long(import_provider(), header_text(c));
    lemma_needle_too_long(import_account(), header_text(c));
    lemma_needle_too_long(import_models(), header_text(c));
}

/// The preamble occurs in itself.
proof fn lemma_header_self(c: DojoContract)
    ensures
        occurs_in(header_text(c), header_text(c)),
{
    assert(header_text(c).subrange(0, header_text(c).len() as int) =~= header_text(c));
    assert(occurs_at(header_text(c), header_text(c), 0));
}

/// The closed export fragment begins with the export marker.
proof fn lemma_export_closed_has_ret(camels: Seq<Seq<char>>)
    ensures
        occurs_in(export_closed(camels), ret_marker()),
{
    assert(export_closed(camels).subrange(0, ret_marker().len() as int) =~= ret_marker());
    lemma_prefix_occurs(export_closed(camels), ret_marker());
}

/// A fresh export fragment is the closed form for a single member.
proof fn lemma_export_new_closed(camel: Seq<char>)
    ensures
        export_new_text(camel) == export_closed(seq![camel]),
{
    reveal_strlit("\treturn {\n\t\t");
    reveal_strlit("\treturn {");
    reveal_strlit("\n\t\t");
    reveal_strlit(",");
    reveal_strlit(",\n\t};\n}");
    reveal_strlit("\n\t};\n}");
    let e = Seq::<Seq<char>>::empty();
    assert(members_text(e) == Seq::<char>::empty());
    assert(seq![camel].drop_last() =~= e);
    assert(seq![camel].last() == camel);
    assert(members_text(seq![camel]) == Seq::<char>::empty() + member_open() + camel + ","@);
    assert(export_new_text(camel) =~= export_closed(seq![camel]));
}

/// The splice point of a closed export fragment — its last comma — sits
/// directly before the closing text.
proof fn lemma_export_closed_last_comma(camels: Seq<Seq<char>>)
    requires
        camels.len() >= 1,
    ensures
        last_char_at(export_closed(camels), ',') == export_closed(camels).len() - 7,
{
    reveal_strlit(",");
    reveal_strlit("\n\t};\n}");
    let m = members_text(camels);
    let a = ret_marker() + m;
    assert(m.len() >= 1);
    assert(m.last() == ',') by {
        let p = members_text(camels.drop_last()) + member_open() + camels.last();
        assert(m == p + ","@);
        assert(m[m.len() - 1] == ","@[0]);
    }
    assert(a.last() == ',');
    assert(forall|k: int| 0 <= k < export_tail().len() ==> export_tail()[k] != ',');
    lemma_last_char_concat(a, export_tail(), ',');
    assert(export_closed(camels) == a + export_tail());
}

/// Splicing one more member into a closed export fragment yields the
/// closed form with that member appended.
proof fn lemma_export_patch(camels: Seq<Seq<char>>, x: Seq<char>)
    requires
        camels.len() >= 1,
    ensures
        patched_export(export_closed(camels), x) == export_closed(camels.push(x)),
{
    lemma_export_closed_last_comma(camels);
    reveal_strlit("\n\t};\n}");
    reveal_strlit("\treturn {");
    let s = export_closed(camels);
    let k = last_char_at(s, ',');
    let a = ret_marker() + members_text(camels);
    assert(s == a + export_tail());
    assert(k + 1 == a.len());
    assert(s.subrange(0, k + 1) =~= a);
    assert(s.subrange(k + 1, s.len() as int) =~= export_tail());
    assert(camels.push(x).drop_last() =~= camels);
    assert(camels.push(x).last() == x);
    assert(members_text(camels.push(x)) == members_text(camels) + member_open() + x + ","@);
    assert(patched_export(s, x) =~= export_closed(camels.push(x)));
}

/// Idempotence of the import step: once the import lines stand in the
/// buffer, applying the step again changes nothing, so two invocations
/// leave the same three-fragment prefix as one.
pub proof fn lemma_imports_idempotent(b: Seq<Seq<char>>)
    ensures
        imports_step(imports_step(b)) == imports_step(b),
{
    if !any_with(b, import_marker()) {
        let b1 = imports_step(b);
        lemma_provider_has_marker();
        assert(b1[0] == import_provider());
        assert(any_with(b1, import_marker()));
    }
}

/// The first generation call on an empty buffer assembles the import
/// lines, the preamble, the body, and a fresh export fragment.
pub proof fn lemma_generate_first(c: DojoContract, f: Function)
    requires
        benign_contract(c),
        benign_function(c, f),
    ensures
        generate_step(c, f, Seq::<Seq<char>>::empty()) == assembled(c, seq![f]),
{
    let b0 = Seq::<Seq<char>>::empty();
    assert(!any_with(b0, import_marker()));
    let b1 = imports_step(b0);
    assert(b1 =~= seq![import_provider(), import_account(), import_models()]);
    lemma_imports_no_header(c);
    assert forall|j: int| 0 <= j < b1.len() implies !occurs_in(b1[j], header_text(c)) by {
        assert(b1[0] == import_provider());
        assert(b1[1] == import_account());
        assert(b1[2] == import_models());
    }
    assert(!any_with(b1, header_text(c)));
    let b2 = preamble_step(b1, c);
    assert(b2 == b1.push(header_text(c)));
    lemma_header_self(c);
    lemma_first_with_is(b2, header_text(c), 3);
    let idx = first_with(b2, header_text(c));
    assert(idx == 3);
    let b3 = body_step(b2, idx, body_text(f));
    assert(b2.len() - idx == 1);
    b2.insert_ensures(4, body_text(f));
    assert(b3 =~= seq![
        import_provider(),
        import_account(),
        import_models(),
        header_text(c),
        body_text(f),
    ]);
    lemma_imports_no_ret_marker();
    assert forall|j: int| 0 <= j < b3.len() implies !occurs_in(b3[j], ret_marker()) by {
        assert(b3[0] == import_provider());
        assert(b3[1] == import_account());
        assert(b3[2] == import_models());
        assert(b3[3] == header_text(c));
        assert(b3[4] == body_text(f));
    }
    assert(!any_with(b3, ret_marker()));
    let b4 = export_step(b3, camel_of(f.name@));
    assert(b4 == b3.push(export_new_text(camel_of(f.name@))));
    lemma_export_new_closed(camel_of(f.name@));
    assert(camels_of(seq![f]) =~= seq![camel_of(f.name@)]);
    assert(bodies_of(seq![f]) =~= seq![body_text(f)]);
    assert(b4 =~= assembled(c, seq![f]));
}

/// A further generation call on an assembled buffer appends the new body
/// directly before the export fragment and splices the new member into it.
pub proof fn lemma_generate_next(c: DojoContract, fs: Seq<Function>, f: Function)
    requires
        fs.len() >= 1,
        benign_contract(c),
        all_benign(c, fs),
        benign_function(c, f),
    ensures
        generate_step(c, f, assembled(c, fs)) == assembled(c, fs.push(f)),
{
    let n = fs.len() as int;
    let b = assembled(c, fs);
    assert(b.len() == n + 5);
    assert(b[0] == import_provider());
    assert(b[1] == import_account());
    assert(b[2] == import_models());
    assert(b[3] == header_text(c));
    assert(forall|i: int| 0 <= i < n ==> b[4 + i] == body_text(#[trigger] fs[i]));
    assert(b[n + 4] == export_closed(camels_of(fs)));
    lemma_provider_has_marker();
    assert(any_with(b, import_marker())) by {
        assert(occurs_in(b[0], import_marker()));
    }
    assert(imports_step(b) == b);
    lemma_header_self(c);
    assert(any_with(b, header_text(c))) by {
        assert(occurs_in(b[3], header_text(c)));
    }
    assert(preamble_step(b, c) == b);
    lemma_imports_no_header(c);
    lemma_first_with_is(b, header_text(c), 3);
    let b3 = body_step(b, 3, body_text(f));
    assert(b.len() - 3 == n + 2);
    assert(n + 2 > 2);
    b.insert_ensures(n + 4, body_text(f));
    assert(b3 == b.insert(n + 4, body_text(f)));
    assert(b3.len() == n + 6);
    lemma_imports_no_ret_marker();
    lemma_export_closed_has_ret(camels_of(fs));
    assert(b3[n + 5] == b[n + 4]);
    assert forall|k: int| 0 <= k < n + 5 implies !occurs_in(b3[k], ret_marker()) by {
        if k < 3 {
            assert(b3[k] == b[k]);
        } else if k == 3 {
            assert(b3[k] == header_text(c));
        } else if k < n + 4 {
            assert(b3[k] == b[k]);
            assert(b[k] == body_text(fs[k - 4]));
            assert(benign_function(c, fs[k - 4]));
        } else {
            assert(b3[k] == body_text(f));
        }
    }
    lemma_first_with_is(b3, ret_marker(), n + 5);
    assert(any_with(b3, ret_marker())) by {
        assert(occurs_in(b3[n + 5], ret_marker()));
    }
    let b4 = export_step(b3, camel_of(f.name@));
    assert(b4 == b3.update(n + 5, patched_export(export_closed(camels_of(fs)), camel_of(f.name@))));
    lemma_export_patch(camels_of(fs), camel_of(f.name@));
    assert(camels_of(fs).push(camel_of(f.name@)) =~= camels_of(fs.push(f)));
    assert(bodies_of(fs).push(body_text(f)) =~= bodies_of(fs.push(f)));
    assert(b4 =~= assembled(c, fs.push(f)));
}

/// Generating a non-empty sequence of benign functions into an empty
/// buffer assembles exactly the skeleton buffer.
pub proof fn lemma_run_assembled(c: DojoContract, fs: Seq<Function>)
    requires
        fs.len() >= 1,
        benign_contract(c),
        all_benign(c, fs),
    ensures
        run_model(c, fs, Seq::<Seq<char>>::empty()) == assembled(c, fs),
    decreases fs.len(),
{
    let e = Seq::<Seq<char>>::empty();
    if fs.len() == 1 {
        assert(benign_function(c, fs[0]));
        lemma_generate_first(c, fs[0]);
        assert(fs.drop_last() =~= Seq::<Function>::empty());
        assert(run_model(c, fs.drop_last(), e) == e);
        assert(run_model(c, fs, e) == generate_step(c, fs.last(), e));
        assert(fs.last() == fs[0]);
        assert(seq![fs[0]] =~= fs);
    } else {
        let fs0 = fs.drop_last();
        assert(all_benign(c, fs0)) by {
            assert(forall|i: int| 0 <= i < fs0.len() ==> fs0[i] == fs[i]);
        }
        assert(benign_function(c, fs.last()));
        lemma_run_assembled(c, fs0);
        lemma_generate_next(c, fs0, fs.last());
        assert(run_model(c, fs, e) == generate_step(c, fs.last(), run_model(c, fs0, e)));
        assert(fs0.push(fs.last()) =~= fs);
    }
}

/// Preamble uniqueness: generating two functions for the same contract,
/// from an empty buffer, leaves the wrapper preamble occurring in exactly
/// one fragment — the preamble fragment itself.
pub proof fn lemma_preamble_unique(c: DojoContract, f1: Function, f2: Function)
    requires
        benign_contract(c),
        benign_function(c, f1),
        benign_function(c, f2),
        !occurs_in(export_closed(camels_of(seq![f1, f2])), header_text(c)),
    ensures
        ({
            let b = run_model(c, seq![f1, f2], Seq::<Seq<char>>::empty());
            &&& b.len() == 7
            &&& forall|j: int|
                0 <= j < b.len() ==> (occurs_in(#[trigger] b[j], header_text(c)) <==> j == 3)
        }),
{
    let fs = seq![f1, f2];
    assert(all_benign(c, fs)) by {
        assert(fs[0] == f1);
        assert(fs[1] == f2);
    }
    lemma_run_assembled(c, fs);
    let b = assembled(c, fs);
    assert(b.len() == 7);
    lemma_imports_no_header(c);
    lemma_header_self(c);
    assert forall|j: int| 0 <= j < b.len() implies (occurs_in(
        #[trigger] b[j],
        header_text(c),
    ) <==> j == 3) by {
        assert(b[0] == import_provider());
        assert(b[1] == import_account());
        assert(b[2] == import_models());
        assert(b[3] == header_text(c));
        assert(b[4] == body_text(f1));
        assert(b[5] == body_text(f2));
        assert(b[6] == export_closed(camels_of(fs)));
    }
}

/// Ordering: three functions generated in that order for one contract have
/// their body fragments in the buffer in the same relative order, all of
/// them before the terminal export fragment, which stands last.
pub proof fn lemma_bodies_ordered(c: DojoContract, f1: Function, f2: Function, f3: Function)
    requires
        benign_contract(c),
        benign_function(c, f1),
        benign_function(c, f2),
        benign_function(c, f3),
    ensures
        ({
            let b = run_model(c, seq![f1, f2, f3], Seq::<Seq<char>>::empty());
            &&& b.len() == 8
            &&& b[4] == body_text(f1)
            &&& b[5] == body_text(f2)
            &&& b[6] == body_text(f3)
            &&& b[7] == export_closed(camels_of(seq![f1, f2, f3]))
        }),
{
    let fs = seq![f1, f2, f3];
    assert(all_benign(c, fs)) by {
        assert(fs[0] == f1);
        assert(fs[1] == f2);
        assert(fs[2] == f3);
    }
    lemma_run_assembled(c, fs);
}

/// Export accumulation: after generating any non-empty sequence of
/// functions, the last fragment is the single export fragment, and it
/// lists the camelCased identifier of every generated function, in
/// generation order, each exactly once.
pub proof fn lemma_export_accumulates(c: DojoContract, fs: Seq<Function>)
    requires
        fs.len() >= 1,
        benign_contract(c),
        all_benign(c, fs),
    ensures
        ({
            let b = run_model(c, fs, Seq::<Seq<char>>::empty());
            &&& b.len() == fs.len() + 5
            &&& b[b.len() - 1] == export_closed(camels_of(fs))
        }),
{
    lemma_run_assembled(c, fs);
}

/// Determinism: generation is a function of the descriptor texts and the
/// buffer alone — two generations from identical descriptor texts over
/// identical buffers produce identical fragments.
pub proof fn lemma_generate_deterministic(
    c1: DojoContract,
    c2: DojoContract,
    f1: Function,
    f2: Function,
    b1: Seq<Seq<char>>,
    b2: Seq<Seq<char>>,
)
    requires
        c1.tag@ == c2.tag@,
        f1.name@ == f2.name@,
        input_views(f1.inputs@) == input_views(f2.inputs@),
        b1 == b2,
    ensures
        body_text(f1) == body_text(f2),
        generate_step(c1, f1, b1) == generate_step(c2, f2, b2),
{
    assert(header_text(c1) == header_text(c2));
    assert(body_text(f1) == body_text(f2));
}

} // verus!
