//! What holds of the sets of lighting models that ship, and of all generated
//! shading.

use vstd::prelude::*;

use crate::lighting;
use crate::lighting::{
    default_models, DispatchView, LightingErrorView, LightingModel, ModelExtra, DEFAULT_MODEL_ID,
};
use crate::sorting;
use crate::text;
use crate::wxsl;

verus! {

// ---------------------------------------------------------------------------
// The two forms of the shading source

/// Whether two texts are two others with one and the same text behind.
spec fn grown_alike(x: Seq<char>, y: Seq<char>, s: Seq<char>, t: Seq<char>) -> bool {
    exists|rest: Seq<char>| s == #[trigger] (x + rest) && t == y + rest
}

broadcast proof fn lemma_grown_further(
    x: Seq<char>,
    y: Seq<char>,
    s: Seq<char>,
    t: Seq<char>,
    w: Seq<char>,
)
    requires
        grown_alike(x, y, s, t),
    ensures
        #[trigger] grown_alike(x, y, s + w, t + w),
{
    let rest = choose|rest: Seq<char>| s == #[trigger] (x + rest) && t == y + rest;
    assert(s + w =~= x + (rest + w));
    assert(t + w =~= y + (rest + w));
}

proof fn lemma_grown_by_nothing(x: Seq<char>, y: Seq<char>)
    ensures
        grown_alike(x, y, x, y),
{
    let none = Seq::<char>::empty();
    assert(x + none =~= x);
    assert(y + none =~= y);
}

proof fn lemma_fields_alike(
    x: Seq<char>,
    y: Seq<char>,
    s: Seq<char>,
    t: Seq<char>,
    extras: Seq<ModelExtra>,
    n: int,
)
    requires
        grown_alike(x, y, s, t),
    ensures
        grown_alike(x, y, lighting::extra_fields(s, extras, n), lighting::extra_fields(t, extras, n)),
    decreases n,
{
    broadcast use lemma_grown_further;

    if n > 0 {
        lemma_fields_alike(x, y, s, t, extras, n - 1);
    }
}

proof fn lemma_arms_alike(
    x: Seq<char>,
    y: Seq<char>,
    s: Seq<char>,
    t: Seq<char>,
    models: Seq<LightingModel>,
    n: int,
)
    requires
        grown_alike(x, y, s, t),
    ensures
        grown_alike(x, y, lighting::switch_arms(s, models, n), lighting::switch_arms(t, models, n)),
    decreases n,
{
    broadcast use lemma_grown_further;

    if n > 0 {
        lemma_arms_alike(x, y, s, t, models, n - 1);
    }
}

proof fn lemma_dispatch_alike(x: Seq<char>, y: Seq<char>, d: DispatchView)
    ensures
        grown_alike(x, y, lighting::dispatch_text(x, d), lighting::dispatch_text(y, d)),
{
    broadcast use lemma_grown_further;

    lemma_grown_by_nothing(x, y);
    match d {
        DispatchView::Direct(m) => {},
        DispatchView::Switch(models) => {
            let extras = lighting::extras_of(models, models.len() as int);
            let s = x + "struct ModelExtras {\n"@;
            let t = y + "struct ModelExtras {\n"@;
            assert(grown_alike(x, y, s, t));
            lemma_fields_alike(x, y, s, t, extras, extras.len() as int);
            let fs = lighting::extra_fields(s, extras, extras.len() as int) + "}\n\n"@;
            let ft = lighting::extra_fields(t, extras, extras.len() as int) + "}\n\n"@;
            assert(grown_alike(x, y, fs, ft));
            let hs = lighting::dispatch_head(fs)
                + "extras: ModelExtras, model_id: u32) -> vec3f {\n    switch model_id {\n"@;
            let ht = lighting::dispatch_head(ft)
                + "extras: ModelExtras, model_id: u32) -> vec3f {\n    switch model_id {\n"@;
            assert(grown_alike(x, y, hs, ht));
            lemma_arms_alike(x, y, hs, ht, models, models.len() as int);
        },
    }
}

proof fn lemma_shading_alike(
    x: Seq<char>,
    y: Seq<char>,
    s: Seq<char>,
    t: Seq<char>,
    d: DispatchView,
)
    requires
        grown_alike(x, y, s, t),
    ensures
        grown_alike(x, y, lighting::shade_fn_text(s, d), lighting::shade_fn_text(t, d)),
{
    broadcast use lemma_grown_further;

}

/// With and without the declarations of the macros, the shading differs by
/// them alone: they stand between its header and the rest, and it imports the
/// same.
pub proof fn shading_differs_by_the_macros_alone(d: DispatchView)
    ensures
        exists|rest: Seq<char>|
            lighting::shading_source(d, true) == #[trigger] (lighting::shading_macros(
                lighting::shading_header(),
            ) + rest) && lighting::shading_source(d, false) == lighting::shading_header() + rest,
        lighting::shading_for(d, true).imports == lighting::shading_for(d, false).imports,
{
    let x = lighting::shading_macros(lighting::shading_header());
    let y = lighting::shading_header();
    lemma_dispatch_alike(x, y, d);
    lemma_shading_alike(
        x,
        y,
        lighting::dispatch_text(x, d),
        lighting::dispatch_text(y, d),
        d,
    );
}


/// The models that a shading function can call.
pub open spec fn called_models(d: DispatchView) -> Seq<LightingModel> {
    match d {
        DispatchView::Direct(m) => seq![m],
        DispatchView::Switch(s) => s,
    }
}

proof fn lemma_functions_listed(s: Seq<LightingModel>, n: int, import: (Seq<char>, Seq<char>))
    requires
        0 <= n <= s.len(),
    ensures
        lighting::with_functions(lighting::shading_imports(), s, n).contains(import)
            <==> lighting::shading_imports().contains(import) || exists|i: int|
            0 <= i < n && import == ((#[trigger] s[i]).module@, s[i].function@),
    decreases n,
{
    if n > 0 {
        lemma_functions_listed(s, n - 1, import);
        let before = lighting::with_functions(lighting::shading_imports(), s, n - 1);
        let all = lighting::with_functions(lighting::shading_imports(), s, n);
        let x = (s[n - 1].module@, s[n - 1].function@);
        lemma_in_longer(before, x, import);
        assert(all == before.push(x));
        if import == x {
            assert(import == (s[n - 1].module@, s[n - 1].function@));
        }
    }
}

proof fn lemma_in_longer<A>(s: Seq<A>, x: A, y: A)
    ensures
        s.push(x).contains(y) <==> s.contains(y) || y == x,
{
    let t = s.push(x);
    assert(t[s.len() as int] == x);
    if s.contains(y) {
        let i = choose|i: int| 0 <= i < s.len() && s[i] == y;
        assert(t[i] == y);
    }
    if t.contains(y) && y != x {
        let i = choose|i: int| 0 <= i < t.len() && t[i] == y;
        assert(s[i] == y);
    }
}

/// Shading imports what all shading does, the function of each model that it
/// can call, the function that packs the extra of the one model it is made
/// for, and nothing else.
pub proof fn only_called_models_are_imported(
    d: DispatchView,
    declare_macros: bool,
    import: (Seq<char>, Seq<char>),
)
    ensures
        lighting::shading_for(d, declare_macros).imports.contains(import) <==> {
            ||| lighting::shading_imports().contains(import)
            ||| exists|i: int|
                0 <= i < called_models(d).len() && import == (
                    (#[trigger] called_models(d)[i]).module@,
                    called_models(d)[i].function@,
                )
            ||| d matches DispatchView::Direct(m) && m.extra is Some && import == (
                m.module@,
                m.extra->0.pack@,
            )
        },
{
    lighting::nothing_is_imported_twice(d, declare_macros);
    assert(lighting::shading_for(d, declare_macros).imports.contains(import)
        <==> lighting::dispatch_imports(d).contains(import));
    match d {
        DispatchView::Direct(m) => {
            let own = lighting::shading_imports().push((m.module@, m.function@));
            lemma_in_longer(lighting::shading_imports(), (m.module@, m.function@), import);
            if m.extra is Some {
                lemma_in_longer(own, (m.module@, m.extra->0.pack@), import);
            }
            assert(called_models(d)[0] == m);
        },
        DispatchView::Switch(s) => {
            lemma_functions_listed(s, s.len() as int, import);
        },
    }
}

// ---------------------------------------------------------------------------
// The sets that ship

proof fn lemma_shipped_set()
    ensures
        lighting::set_of(default_models()@) == Result::<
            Seq<LightingModel>,
            LightingErrorView,
        >::Ok(default_models()@),
{
    let s = default_models()@;
    assert(s.len() == 4);
    sorting::lemma_sorted_already(s, lighting::by_id());
    reveal_with_fuel(lighting::repeated_id, 5);
    reveal_with_fuel(lighting::repeated_name, 5);
    reveal_strlit("lambert");
    reveal_strlit("phong");
    reveal_strlit("pbr");
    reveal_strlit("clearcoat");
    assert(s[0].name@.len() == 7 && s[1].name@.len() == 5 && s[2].name@.len() == 3
        && s[3].name@.len() == 9);
}

proof fn lemma_behind(a: Seq<char>, b: Seq<char>)
    requires
        vstd::utf8::is_ascii_chars(a),
        vstd::utf8::is_ascii_chars(b),
    ensures
        vstd::utf8::is_ascii_chars(a + b),
        wxsl::oddly_coded(a + b) == (wxsl::oddly_coded(a) != wxsl::oddly_coded(b)),
{
    wxsl::lemma_oddly_coded(a, b);
    assert forall|i: int| 0 <= i < (a + b).len() implies '\0' <= #[trigger] (a + b)[i] <= '\u{7f}' by {
        if i < a.len() {
            assert((a + b)[i] == a[i]);
        } else {
            assert((a + b)[i] == b[i - a.len()]);
        }
    }
}

proof fn lemma_model_behind(out: Seq<char>, name: Seq<char>, id: nat)
    requires
        vstd::utf8::is_ascii_chars(out),
        vstd::utf8::is_ascii_chars(name),
        id < 10,
    ensures
        ({
            let all = out + name + ":"@ + text::decimal(id);
            &&& vstd::utf8::is_ascii_chars(all)
            &&& wxsl::oddly_coded(all) == ((wxsl::oddly_coded(out) != wxsl::oddly_coded(name)) != (id
                % 2 == 1))
        }),
{
    let d = text::decimal(id);
    reveal_strlit(":");
    reveal_with_fuel(wxsl::oddly_coded, 2);
    assert(wxsl::oddly_coded(":"@) == false);
    assert(d.len() == 1 && d[0] as u32 == '0' as u32 + id);
    assert(wxsl::oddly_coded(d) == (id % 2 == 1));
    lemma_behind(out, name);
    lemma_behind(out + name, ":"@);
    lemma_behind(out + name + ":"@, d);
}

proof fn lemma_comma_behind(out: Seq<char>)
    requires
        vstd::utf8::is_ascii_chars(out),
    ensures
        vstd::utf8::is_ascii_chars(out + ","@),
        wxsl::oddly_coded(out + ","@) == wxsl::oddly_coded(out),
{
    reveal_strlit(",");
    reveal_with_fuel(wxsl::oddly_coded, 2);
    assert(wxsl::oddly_coded(","@) == false);
    lemma_behind(out, ","@);
}

proof fn lemma_names_coded()
    ensures
        vstd::utf8::is_ascii_chars("models="@),
        vstd::utf8::is_ascii_chars("lambert"@),
        vstd::utf8::is_ascii_chars("phong"@),
        vstd::utf8::is_ascii_chars("pbr"@),
        vstd::utf8::is_ascii_chars("clearcoat"@),
        wxsl::oddly_coded("models="@),
        wxsl::oddly_coded("lambert"@),
        !wxsl::oddly_coded("phong"@),
        !wxsl::oddly_coded("pbr"@),
        !wxsl::oddly_coded("clearcoat"@),
{
    reveal_strlit("models=");
    reveal_strlit("lambert");
    reveal_strlit("phong");
    reveal_strlit("pbr");
    reveal_strlit("clearcoat");
    reveal_with_fuel(wxsl::oddly_coded, 10);
}

/// Every model that ships and the one that a material gets which names none
/// are sets with numbers of their own.
pub proof fn shipped_sets_have_numbers_of_their_own()
    ensures
        lighting::set_of(default_models()@) is Ok,
        wxsl::text_hash(lighting::set_signature(lighting::set_of(default_models()@)->Ok_0))
            != wxsl::text_hash(
            lighting::set_signature(seq![default_models()[DEFAULT_MODEL_ID as int]]),
        ),
{
    lemma_shipped_set();
    lemma_names_coded();
    let all = default_models()@;
    let one = seq![default_models()[DEFAULT_MODEL_ID as int]];
    let head = "models="@;
    reveal_with_fuel(lighting::models_signature, 5);
    lemma_model_behind(head, "pbr"@, 2);
    assert(lighting::set_signature(one) == head + "pbr"@ + ":"@ + text::decimal(2));
    let s1 = lighting::models_signature(head, all, 1);
    let s2 = lighting::models_signature(head, all, 2);
    let s3 = lighting::models_signature(head, all, 3);
    lemma_model_behind(head, "lambert"@, 0);
    assert(s1 == head + "lambert"@ + ":"@ + text::decimal(0));
    lemma_comma_behind(s1);
    lemma_model_behind(s1 + ","@, "phong"@, 1);
    assert(s2 == s1 + ","@ + "phong"@ + ":"@ + text::decimal(1));
    lemma_comma_behind(s2);
    lemma_model_behind(s2 + ","@, "pbr"@, 2);
    assert(s3 == s2 + ","@ + "pbr"@ + ":"@ + text::decimal(2));
    lemma_comma_behind(s3);
    lemma_model_behind(s3 + ","@, "clearcoat"@, 3);
    assert(lighting::set_signature(all) == s3 + ","@ + "clearcoat"@ + ":"@ + text::decimal(3));
    wxsl::hashes_keep_parity(lighting::set_signature(one));
    wxsl::hashes_keep_parity(lighting::set_signature(all));
}

} // verus!
