//! The generation driver: turns a scene's entity collections into the
//! named builders that the top-level template consumes, assigning a fresh
//! identifier to every entity-authored fragment, and expands the template
//! into the final document with its aggregate provenance index.
//!
//! Entities are taken by their role alone: a stable ordinal position, a
//! category, and the raw text fragments that need identifier attribution.
//! The scene's geometric and animation semantics stay outside this crate;
//! fixed scaffolding text (declarations, dispatch chains, function
//! signatures) is emitted around the authored fragments with plain
//! appends, so only authored text carries provenance.
//!
//! Identifier assignment is deterministic: the entity at position `pos` of
//! its collection gets `base + pos`, where each category owns a base, so
//! the same scene always yields the same identifiers.

use vstd::prelude::*;
use vstd::string::StringExecFns;

use crate::identifier::{ErrId, ErrorId};
use crate::line_index::can_shift;
use crate::numeral::{dec_digits, format_usize};
use crate::storage::{
    append_model, empty_model, ident_append_model, model_of, BuildState, StringStorage,
};
use crate::template::{
    apply_template, expand_states, lemma_expand_agree, placeholders_wf, sections_disjoint,
    sections_wf, split_spec, template_ok, NamedStorages,
};
use crate::text::newline_count;

verus! {

/// Identifier base owned by the material category.
pub const MATERIAL_ID_BASE: usize = 1000;

/// Identifier base owned by the object category.
pub const OBJECT_ID_BASE: usize = 2000;

/// Identifier base owned by the library category.
pub const LIBRARY_ID_BASE: usize = 3000;

/// The kind of a uniform declaration emitted into the document.
#[derive(Clone, Copy, Debug, PartialEq, Eq, Structural)]
pub enum UniformKind {
    Mat4,
    Float1,
    Int1,
}

/// The kind of value a user-declared uniform carries; only the kind
/// matters for the declaration text.
#[derive(Clone, Copy, Debug, PartialEq, Eq, Structural)]
pub enum ValueUniformKind {
    Bool,
    Int,
    Float,
    Angle,
    Formula,
}

/// One user-declared value uniform.
pub struct ValueUniform {
    pub name: String,
    pub kind: ValueUniformKind,
}

/// One uniform declaration of the document.
pub struct UniformDecl {
    pub name: String,
    pub kind: UniformKind,
}

/// The declaration a uniform contributes, at the level of its text.
pub ghost struct UniformDeclView {
    pub name: Seq<char>,
    pub kind: UniformKind,
}

/// How a material's processing body is authored: a fixed dispatch call
/// rendered from its parameters, or custom user code that needs
/// provenance.
pub enum MaterialCode {
    Fixed(String),
    Custom(String),
}

/// One material of the scene.
pub struct MaterialEntity {
    pub name: String,
    pub code: MaterialCode,
}

/// How an object is placed: by one matrix, or as a portal pair.
pub enum ObjectKind {
    Simple(String),
    Portal(String, String),
}

/// One object of the scene, with its authored routine.
pub enum ObjectEntity {
    DebugMatrix(String),
    Flat { kind: ObjectKind, is_inside: String },
    Complex { kind: ObjectKind, intersect: String },
}

/// One entry of the user GLSL library.
pub struct LibraryEntry {
    pub code: String,
}

/// The scene, reduced to what code generation reads: ordered entity
/// collections exposing names, categories and raw text fragments.
pub struct SceneModel {
    pub uniforms: Vec<ValueUniform>,
    pub textures: Vec<String>,
    pub materials: Vec<MaterialEntity>,
    pub objects: Vec<ObjectEntity>,
    pub library: Vec<LibraryEntry>,
}

impl ErrorId for MaterialEntity {
    open spec fn id_base(&self) -> usize {
        MATERIAL_ID_BASE
    }

    fn identifier(&self, pos: usize) -> ErrId {
        ErrId(MATERIAL_ID_BASE + pos)
    }
}

impl ErrorId for ObjectEntity {
    open spec fn id_base(&self) -> usize {
        OBJECT_ID_BASE
    }

    fn identifier(&self, pos: usize) -> ErrId {
        ErrId(OBJECT_ID_BASE + pos)
    }
}

impl ErrorId for LibraryEntry {
    open spec fn id_base(&self) -> usize {
        LIBRARY_ID_BASE
    }

    fn identifier(&self, pos: usize) -> ErrId {
        ErrId(LIBRARY_ID_BASE + pos)
    }
}

/// Concatenation of two string slices.
pub fn cat2(a: &str, b: &str) -> (r: String)
    ensures
        r@ == a@ + b@,
{
    let mut s = String::from_str(a);
    s.append(b);
    s
}

/// Concatenation of three string slices.
pub fn cat3(a: &str, b: &str, c: &str) -> (r: String)
    ensures
        r@ == a@ + b@ + c@,
{
    let mut s = String::from_str(a);
    s.append(b);
    s.append(c);
    s
}

/// Concatenation of five string slices.
pub fn cat5(a: &str, b: &str, c: &str, d: &str, e: &str) -> (r: String)
    ensures
        r@ == a@ + b@ + c@ + d@ + e@,
{
    let mut s = String::from_str(a);
    s.append(b);
    s.append(c);
    s.append(d);
    s.append(e);
    s
}

/// The uniform name under which an object matrix is handed to the shader.
pub open spec fn normal_name_spec(m: Seq<char>) -> Seq<char> {
    m + "_mat"@
}

/// The uniform name of a matrix's inverse.
pub open spec fn inverse_name_spec(m: Seq<char>) -> Seq<char> {
    m + "_mat_inv"@
}

/// The uniform name of the transform from portal side `a` to side `b`.
pub open spec fn teleport_name_spec(a: Seq<char>, b: Seq<char>) -> Seq<char> {
    a + "_to_"@ + b + "_mat_teleport"@
}

/// The uniform name under which an object matrix is handed to the shader.
pub fn normal_name(m: &str) -> (r: String)
    ensures
        r@ == normal_name_spec(m@),
{
    cat2(m, "_mat")
}

/// The uniform name of a matrix's inverse.
pub fn inverse_name(m: &str) -> (r: String)
    ensures
        r@ == inverse_name_spec(m@),
{
    cat2(m, "_mat_inv")
}

/// The uniform name of the transform from portal side `a` to side `b`.
pub fn teleport_name(a: &str, b: &str) -> (r: String)
    ensures
        r@ == teleport_name_spec(a@, b@),
{
    let mut s = String::from_str(a);
    s.append("_to_");
    s.append(b);
    s.append("_mat_teleport");
    s
}

/// The GLSL keyword of a uniform kind.
pub open spec fn kind_keyword(k: UniformKind) -> Seq<char> {
    match k {
        UniformKind::Mat4 => "mat4"@,
        UniformKind::Float1 => "float"@,
        UniformKind::Int1 => "int"@,
    }
}

/// The GLSL keyword of a uniform kind.
pub fn kind_keyword_str(k: UniformKind) -> (r: &'static str)
    ensures
        r@ == kind_keyword(k),
{
    match k {
        UniformKind::Mat4 => "mat4",
        UniformKind::Float1 => "float",
        UniformKind::Int1 => "int",
    }
}

/// Whether a uniform name is reserved for the surrounding program rather
/// than declared in the document.
pub open spec fn starts_with_underscore(n: Seq<char>) -> bool {
    n.len() > 0 && n[0] == '_'
}

/// Whether a uniform name is reserved for the surrounding program rather
/// than declared in the document.
pub fn is_reserved_name(n: &str) -> (r: bool)
    ensures
        r == starts_with_underscore(n@),
{
    let len = n.unicode_len();
    if len == 0 {
        false
    } else {
        n.get_char(0) == '_'
    }
}

/// The declaration line one uniform contributes.
pub open spec fn uniform_decl_text(d: UniformDeclView) -> Seq<char> {
    "uniform "@ + kind_keyword(d.kind) + " "@ + d.name + ";\n"@
}

/// The views of a declaration list.
pub open spec fn decl_views(ds: Seq<UniformDecl>) -> Seq<UniformDeclView> {
    ds.map_values(|d: UniformDecl| UniformDeclView { name: d.name@, kind: d.kind })
}

/// The state the uniforms section reaches: one declaration line per
/// non-reserved uniform, in collection order.
pub open spec fn uniforms_section_model(ds: Seq<UniformDeclView>) -> BuildState
    decreases ds.len(),
{
    if ds.len() == 0 {
        empty_model()
    } else {
        let b = uniforms_section_model(ds.drop_last());
        if starts_with_underscore(ds.last().name) {
            b
        } else {
            append_model(b, uniform_decl_text(ds.last()))
        }
    }
}

/// The cursor of a uniforms-section prefix never exceeds the whole
/// section's.
pub proof fn lemma_uniforms_cursor_mono(ds: Seq<UniformDeclView>, i: int)
    requires
        0 <= i <= ds.len(),
    ensures
        uniforms_section_model(ds.subrange(0, i)).cursor <= uniforms_section_model(ds).cursor,
    decreases ds.len() - i,
{
    if i < ds.len() {
        lemma_uniforms_cursor_mono(ds, i + 1);
        assert(ds.subrange(0, i + 1).drop_last() =~= ds.subrange(0, i));
        assert(ds.subrange(0, i + 1).last() == ds[i]);
    } else {
        assert(ds.subrange(0, i) =~= ds);
    }
}

/// Builds the uniforms section from the derived declaration list.
pub fn build_uniforms_section(ds: &Vec<UniformDecl>) -> (r: StringStorage)
    requires
        uniforms_section_model(decl_views(ds@)).cursor <= usize::MAX,
    ensures
        r.inv(),
        model_of(r) == uniforms_section_model(decl_views(ds@)),
        r.line_numbers@ == Map::<ErrId, crate::line_index::LineRange>::empty(),
{
    let ghost dvs = decl_views(ds@);
    let mut result = StringStorage::default();
    let n = ds.len();
    let mut i: usize = 0;
    proof {
        assert(dvs.subrange(0, 0) =~= Seq::<UniformDeclView>::empty());
    }
    while i < n
        invariant
            i <= n,
            n == ds@.len(),
            dvs == decl_views(ds@),
            uniforms_section_model(dvs).cursor <= usize::MAX,
            result.inv(),
            model_of(result) == uniforms_section_model(dvs.subrange(0, i as int)),
            result.line_numbers@ == Map::<ErrId, crate::line_index::LineRange>::empty(),
        decreases n - i,
    {
        proof {
            assert(dvs.subrange(0, i + 1).drop_last() =~= dvs.subrange(0, i as int));
            assert(dvs.subrange(0, i + 1).last() == dvs[i as int]);
            lemma_uniforms_cursor_mono(dvs, i + 1);
        }
        let d = &ds[i];
        if !is_reserved_name(d.name.as_str()) {
            let line = cat5(
                "uniform ",
                kind_keyword_str(d.kind),
                " ",
                d.name.as_str(),
                ";\n",
            );
            result.add_string(line.as_str());
        }
        proof {
            assert(model_of(result) =~= uniforms_section_model(dvs.subrange(0, i + 1)));
        }
        i = i + 1;
    }
    proof {
        assert(dvs.subrange(0, n as int) =~= dvs);
    }
    result
}

/// The matrix uniform names one object placement needs.
pub open spec fn kind_matrix_names(k: ObjectKind) -> Seq<Seq<char>> {
    match k {
        ObjectKind::Simple(m) => seq![normal_name_spec(m@), inverse_name_spec(m@)],
        ObjectKind::Portal(a, b) => {
            let base = seq![
                normal_name_spec(a@),
                inverse_name_spec(a@),
                normal_name_spec(b@),
                inverse_name_spec(b@),
                teleport_name_spec(a@, b@),
            ];
            if b@ == a@ {
                base
            } else {
                base.push(teleport_name_spec(b@, a@))
            }
        },
    }
}

/// The matrix uniform names one object needs.
pub open spec fn object_matrix_names(o: ObjectEntity) -> Seq<Seq<char>> {
    match o {
        ObjectEntity::DebugMatrix(m) => seq![normal_name_spec(m@), inverse_name_spec(m@)],
        ObjectEntity::Flat { kind, is_inside: _ } => kind_matrix_names(kind),
        ObjectEntity::Complex { kind, intersect: _ } => kind_matrix_names(kind),
    }
}

/// All matrix uniform names the scene's objects need, in collection
/// order.
pub open spec fn matrix_names_spec(objs: Seq<ObjectEntity>) -> Seq<Seq<char>>
    decreases objs.len(),
{
    if objs.len() == 0 {
        Seq::empty()
    } else {
        matrix_names_spec(objs.drop_last()) + object_matrix_names(objs.last())
    }
}

/// `s` with later repetitions removed: each name keeps its first
/// occurrence.
pub open spec fn dedup_spec(s: Seq<Seq<char>>) -> Seq<Seq<char>>
    decreases s.len(),
{
    if s.len() == 0 {
        Seq::empty()
    } else {
        let d = dedup_spec(s.drop_last());
        if s.drop_last().contains(s.last()) {
            d
        } else {
            d.push(s.last())
        }
    }
}

/// Removing repetitions keeps exactly the names that were there.
pub proof fn lemma_dedup_contains(s: Seq<Seq<char>>, x: Seq<char>)
    ensures
        dedup_spec(s).contains(x) <==> s.contains(x),
    decreases s.len(),
{
    if s.len() > 0 {
        let dl = s.drop_last();
        lemma_dedup_contains(dl, x);
        let d = dedup_spec(dl);
        assert(s.contains(x) <==> (dl.contains(x) || s.last() == x)) by {
            if s.contains(x) {
                let i = choose|i: int| 0 <= i < s.len() && s[i] == x;
                if i < s.len() - 1 {
                    assert(dl[i] == x);
                    assert(dl.contains(x));
                }
            }
            if dl.contains(x) {
                let i = choose|i: int| 0 <= i < dl.len() && dl[i] == x;
                assert(s[i] == x);
                assert(s.contains(x));
            }
            if s.last() == x {
                assert(s[s.len() - 1] == x);
                assert(s.contains(x));
            }
        }
        if !dl.contains(s.last()) {
            assert(dedup_spec(s) == d.push(s.last()));
            assert(d.push(s.last()).contains(x) <==> (d.contains(x) || s.last() == x)) by {
                if d.contains(x) {
                    let i = choose|i: int| 0 <= i < d.len() && d[i] == x;
                    assert(d.push(s.last())[i] == x);
                    assert(d.push(s.last()).contains(x));
                }
                if s.last() == x {
                    assert(d.push(s.last())[d.len() as int] == x);
                    assert(d.push(s.last()).contains(x));
                }
                if d.push(s.last()).contains(x) {
                    let i = choose|i: int|
                        0 <= i < d.push(s.last()).len() && d.push(s.last())[i] == x;
                    if i < d.len() {
                        assert(d[i] == x);
                        assert(d.contains(x));
                    }
                }
            }
        }
    }
}

/// Mat4 declarations for a list of matrix uniform names.
pub open spec fn mat4_decls(names: Seq<Seq<char>>) -> Seq<UniformDeclView> {
    names.map_values(|n: Seq<char>| UniformDeclView { name: n, kind: UniformKind::Mat4 })
}

/// The declaration kind a value uniform needs.
pub open spec fn value_uniform_kind(k: ValueUniformKind) -> UniformKind {
    match k {
        ValueUniformKind::Bool => UniformKind::Int1,
        ValueUniformKind::Int => UniformKind::Int1,
        ValueUniformKind::Float => UniformKind::Float1,
        ValueUniformKind::Angle => UniformKind::Float1,
        ValueUniformKind::Formula => UniformKind::Float1,
    }
}

/// The declarations the value uniforms contribute: each name suffixed to
/// keep it apart from the matrix uniforms.
pub open spec fn value_decl_views(us: Seq<ValueUniform>) -> Seq<UniformDeclView> {
    us.map_values(
        |u: ValueUniform| UniformDeclView { name: u.name@ + "_u"@, kind: value_uniform_kind(u.kind) },
    )
}

/// Every uniform declaration of the document: the deduplicated matrix
/// names, then the value uniforms, in collection order.
pub open spec fn uniform_decls_spec(
    objs: Seq<ObjectEntity>,
    us: Seq<ValueUniform>,
) -> Seq<UniformDeclView> {
    mat4_decls(dedup_spec(matrix_names_spec(objs))) + value_decl_views(us)
}

/// Whether `name` is already among the views of `acc`.
fn contains_name(acc: &Vec<String>, name: &str) -> (r: bool)
    ensures
        r == name_views(acc@).contains(name@),
{
    let n = acc.len();
    let mut i: usize = 0;
    while i < n
        invariant
            i <= n,
            n == acc@.len(),
            forall|j: int| 0 <= j < i ==> name_views(acc@)[j] != name@,
        decreases n - i,
    {
        if crate::template::str_eq(acc[i].as_str(), name) {
            proof {
                assert(name_views(acc@)[i as int] == name@);
            }
            return true;
        }
        i = i + 1;
    }
    proof {
        if name_views(acc@).contains(name@) {
            let j = choose|j: int|
                0 <= j < name_views(acc@).len() && name_views(acc@)[j] == name@;
        }
    }
    false
}

/// Derives the document's uniform declarations from the scene: the matrix
/// uniforms that the objects need, each declared once at its first use,
/// followed by the user's value uniforms.
pub fn uniform_declarations(objects: &Vec<ObjectEntity>, uniforms: &Vec<ValueUniform>) -> (r:
    Vec<UniformDecl>)
    ensures
        decl_views(r@) == uniform_decls_spec(objects@, uniforms@),
{
    let mut names: Vec<String> = Vec::new();
    let n = objects.len();
    let mut i: usize = 0;
    proof {
        assert(objects@.subrange(0, 0) =~= Seq::<ObjectEntity>::empty());
        assert(name_views(names@) =~= matrix_names_spec(objects@.subrange(0, 0)));
    }
    while i < n
        invariant
            i <= n,
            n == objects@.len(),
            name_views(names@) == matrix_names_spec(objects@.subrange(0, i as int)),
        decreases n - i,
    {
        let ghost pre = names@;
        proof {
            assert(objects@.subrange(0, i + 1).drop_last() =~= objects@.subrange(0, i as int));
            assert(objects@.subrange(0, i + 1).last() == objects@[i as int]);
        }
        match &objects[i] {
            ObjectEntity::DebugMatrix(m) => {
                names.push(normal_name(m.as_str()));
                names.push(inverse_name(m.as_str()));
            },
            ObjectEntity::Flat { kind, is_inside: _ } => {
                push_kind_names(&mut names, kind);
            },
            ObjectEntity::Complex { kind, intersect: _ } => {
                push_kind_names(&mut names, kind);
            },
        }
        proof {
            assert(name_views(names@) =~= name_views(pre) + object_matrix_names(
                objects@[i as int],
            ));
            assert(name_views(names@) =~= matrix_names_spec(objects@.subrange(0, i + 1)));
        }
        i = i + 1;
    }
    proof {
        assert(objects@.subrange(0, n as int) =~= objects@);
    }
    let mut deduped: Vec<String> = Vec::new();
    let total = names.len();
    let mut j: usize = 0;
    proof {
        assert(names@.subrange(0, 0) =~= Seq::<String>::empty());
        assert(name_views(deduped@) =~= dedup_spec(name_views(names@.subrange(0, 0))));
    }
    while j < total
        invariant
            j <= total,
            total == names@.len(),
            name_views(deduped@) == dedup_spec(name_views(names@.subrange(0, j as int))),
        decreases total - j,
    {
        let ghost prefix = names@.subrange(0, j as int);
        let ghost prefix1 = names@.subrange(0, j + 1);
        proof {
            assert(prefix1.drop_last() =~= prefix);
            assert(prefix1.last() == names@[j as int]);
            assert(name_views(prefix1).drop_last() =~= name_views(prefix));
            assert(name_views(prefix1).last() == names@[j as int]@);
            lemma_dedup_contains(name_views(prefix), names@[j as int]@);
        }
        let ghost pre_out = deduped@;
        if !contains_name(&deduped, names[j].as_str()) {
            let copied = String::from_str(names[j].as_str());
            deduped.push(copied);
            proof {
                assert(name_views(deduped@) =~= name_views(pre_out).push(names@[j as int]@));
            }
        }
        proof {
            assert(name_views(deduped@) =~= dedup_spec(name_views(prefix1)));
        }
        j = j + 1;
    }
    proof {
        assert(names@.subrange(0, total as int) =~= names@);
    }
    let mut decls: Vec<UniformDecl> = Vec::new();
    let dn = deduped.len();
    let mut k: usize = 0;
    while k < dn
        invariant
            k <= dn,
            dn == deduped@.len(),
            decl_views(decls@).len() == k,
            forall|l: int|
                0 <= l < k ==> decl_views(decls@)[l] == (UniformDeclView {
                    name: name_views(deduped@)[l],
                    kind: UniformKind::Mat4,
                }),
        decreases dn - k,
    {
        let ghost pre = decls@;
        let name = String::from_str(deduped[k].as_str());
        proof {
            assert(name@ == name_views(deduped@)[k as int]);
        }
        decls.push(UniformDecl { name, kind: UniformKind::Mat4 });
        proof {
            assert(decl_views(decls@).drop_last() =~= decl_views(pre));
            assert forall|l: int| 0 <= l < k + 1 implies decl_views(decls@)[l]
                == (UniformDeclView {
                name: name_views(deduped@)[l],
                kind: UniformKind::Mat4,
            }) by {
                if l < k {
                    assert(decl_views(decls@)[l] == decl_views(pre)[l]);
                }
            }
        }
        k = k + 1;
    }
    proof {
        assert(decl_views(decls@) =~= mat4_decls(name_views(deduped@)));
    }
    let ghost mat_part = decl_views(decls@);
    let un = uniforms.len();
    let mut v: usize = 0;
    while v < un
        invariant
            v <= un,
            un == uniforms@.len(),
            decl_views(decls@).len() == mat_part.len() + v,
            decl_views(decls@).subrange(0, mat_part.len() as int) == mat_part,
            forall|l: int|
                0 <= l < v ==> decl_views(decls@)[mat_part.len() + l] == value_decl_views(
                    uniforms@,
                )[l],
        decreases un - v,
    {
        let ghost pre = decls@;
        let u = &uniforms[v];
        let name = cat2(u.name.as_str(), "_u");
        let kind = match u.kind {
            ValueUniformKind::Bool => UniformKind::Int1,
            ValueUniformKind::Int => UniformKind::Int1,
            ValueUniformKind::Float => UniformKind::Float1,
            ValueUniformKind::Angle => UniformKind::Float1,
            ValueUniformKind::Formula => UniformKind::Float1,
        };
        decls.push(UniformDecl { name, kind });
        proof {
            assert(decl_views(decls@).drop_last() =~= decl_views(pre));
            assert(decl_views(decls@).subrange(0, mat_part.len() as int) =~= decl_views(
                pre,
            ).subrange(0, mat_part.len() as int));
            assert(decl_views(decls@)[mat_part.len() + v] == value_decl_views(
                uniforms@,
            )[v as int]);
        }
        v = v + 1;
    }
    proof {
        assert(decl_views(decls@) =~= uniform_decls_spec(objects@, uniforms@));
    }
    decls
}

/// Pushes the matrix uniform names one placement needs.
fn push_kind_names(names: &mut Vec<String>, kind: &ObjectKind)
    ensures
        name_views(final(names)@) == name_views(old(names)@) + kind_matrix_names(*kind),
{
    match kind {
        ObjectKind::Simple(m) => {
            names.push(normal_name(m.as_str()));
            names.push(inverse_name(m.as_str()));
            proof {
                assert(name_views(names@) =~= name_views(old(names)@) + kind_matrix_names(
                    *kind,
                ));
            }
        },
        ObjectKind::Portal(a, b) => {
            names.push(normal_name(a.as_str()));
            names.push(inverse_name(a.as_str()));
            names.push(normal_name(b.as_str()));
            names.push(inverse_name(b.as_str()));
            names.push(teleport_name(a.as_str(), b.as_str()));
            if !crate::template::str_eq(b.as_str(), a.as_str()) {
                names.push(teleport_name(b.as_str(), a.as_str()));
            }
            proof {
                assert(name_views(names@) =~= name_views(old(names)@) + kind_matrix_names(
                    *kind,
                ));
            }
        },
    }
}

/// The declaration line one texture contributes.
pub open spec fn texture_decl_text(name: Seq<char>) -> Seq<char> {
    "uniform sampler2D "@ + name + ";\n"@
}

/// The views of a texture-name list.
pub open spec fn name_views(ns: Seq<String>) -> Seq<Seq<char>> {
    ns.map_values(|n: String| n@)
}

/// The state the textures section reaches: one sampler declaration per
/// texture, in collection order.
pub open spec fn textures_section_model(ns: Seq<Seq<char>>) -> BuildState
    decreases ns.len(),
{
    if ns.len() == 0 {
        empty_model()
    } else {
        append_model(textures_section_model(ns.drop_last()), texture_decl_text(ns.last()))
    }
}

/// The cursor of a textures-section prefix never exceeds the whole
/// section's.
pub proof fn lemma_textures_cursor_mono(ns: Seq<Seq<char>>, i: int)
    requires
        0 <= i <= ns.len(),
    ensures
        textures_section_model(ns.subrange(0, i)).cursor <= textures_section_model(ns).cursor,
    decreases ns.len() - i,
{
    if i < ns.len() {
        lemma_textures_cursor_mono(ns, i + 1);
        assert(ns.subrange(0, i + 1).drop_last() =~= ns.subrange(0, i));
        assert(ns.subrange(0, i + 1).last() == ns[i]);
    } else {
        assert(ns.subrange(0, i) =~= ns);
    }
}

/// Builds the textures section.
pub fn build_textures_section(ns: &Vec<String>) -> (r: StringStorage)
    requires
        textures_section_model(name_views(ns@)).cursor <= usize::MAX,
    ensures
        r.inv(),
        model_of(r) == textures_section_model(name_views(ns@)),
        r.line_numbers@ == Map::<ErrId, crate::line_index::LineRange>::empty(),
{
    let ghost nvs = name_views(ns@);
    let mut result = StringStorage::default();
    let n = ns.len();
    let mut i: usize = 0;
    proof {
        assert(nvs.subrange(0, 0) =~= Seq::<Seq<char>>::empty());
    }
    while i < n
        invariant
            i <= n,
            n == ns@.len(),
            nvs == name_views(ns@),
            textures_section_model(nvs).cursor <= usize::MAX,
            result.inv(),
            model_of(result) == textures_section_model(nvs.subrange(0, i as int)),
            result.line_numbers@ == Map::<ErrId, crate::line_index::LineRange>::empty(),
        decreases n - i,
    {
        proof {
            assert(nvs.subrange(0, i + 1).drop_last() =~= nvs.subrange(0, i as int));
            assert(nvs.subrange(0, i + 1).last() == nvs[i as int]);
            lemma_textures_cursor_mono(nvs, i + 1);
        }
        let line = cat3("uniform sampler2D ", ns[i].as_str(), ";\n");
        result.add_string(line.as_str());
        proof {
            assert(model_of(result) =~= textures_section_model(nvs.subrange(0, i + 1)));
        }
        i = i + 1;
    }
    proof {
        assert(nvs.subrange(0, n as int) =~= nvs);
    }
    result
}

/// The portal sides of an object's placement, if it is a portal.
pub open spec fn kind_portal_sides(k: ObjectKind) -> Option<(Seq<char>, Seq<char>)> {
    match k {
        ObjectKind::Simple(_) => None,
        ObjectKind::Portal(a, b) => Some((a@, b@)),
    }
}

/// The portal sides of an object, if it is a portal.
pub open spec fn portal_sides(o: ObjectEntity) -> Option<(Seq<char>, Seq<char>)> {
    match o {
        ObjectEntity::DebugMatrix(_) => None,
        ObjectEntity::Flat { kind, is_inside: _ } => kind_portal_sides(kind),
        ObjectEntity::Complex { kind, intersect: _ } => kind_portal_sides(kind),
    }
}

/// How many of the objects are portals.
pub open spec fn count_portals(objs: Seq<ObjectEntity>) -> nat
    decreases objs.len(),
{
    if objs.len() == 0 {
        0
    } else {
        count_portals(objs.drop_last()) + if portal_sides(objs.last()) is Some {
            1nat
        } else {
            0nat
        }
    }
}

/// The dispatch constant definition one material contributes.
pub open spec fn material_define_text(name: Seq<char>, counter: nat) -> Seq<char> {
    "#define "@ + name + "_M (USER_MATERIAL_OFFSET + "@ + dec_digits(counter) + ")\n"@
}

/// The dispatch constant name of one side of a portal's material pair.
pub open spec fn portal_material_name(pos: nat, second: bool) -> Seq<char> {
    if second {
        "teleport_"@ + dec_digits(pos) + "_2_M"@
    } else {
        "teleport_"@ + dec_digits(pos) + "_1_M"@
    }
}

/// The two dispatch constant definitions one portal contributes.
pub open spec fn portal_define_text(pos: nat, counter: nat) -> Seq<char> {
    "#define "@ + portal_material_name(pos, false) + " (USER_MATERIAL_OFFSET + "@ + dec_digits(
        counter,
    ) + ")\n"@ + "#define "@ + portal_material_name(pos, true) + " (USER_MATERIAL_OFFSET + "@
        + dec_digits(counter + 1) + ")\n"@
}

/// The state the defines section reaches after the material definitions.
pub open spec fn material_defines_fold(ms: Seq<MaterialEntity>) -> BuildState
    decreases ms.len(),
{
    if ms.len() == 0 {
        empty_model()
    } else {
        append_model(
            material_defines_fold(ms.drop_last()),
            material_define_text(ms.last().name@, (ms.len() - 1) as nat),
        )
    }
}

/// The state the defines section reaches after the portal definitions,
/// whose dispatch constants continue counting where the materials ended.
pub open spec fn portal_defines_fold(
    objs: Seq<ObjectEntity>,
    base: nat,
    start: BuildState,
) -> BuildState
    decreases objs.len(),
{
    if objs.len() == 0 {
        start
    } else {
        let b = portal_defines_fold(objs.drop_last(), base, start);
        if portal_sides(objs.last()) is Some {
            append_model(
                b,
                portal_define_text(
                    (objs.len() - 1) as nat,
                    base + 2 * count_portals(objs.drop_last()),
                ),
            )
        } else {
            b
        }
    }
}

/// The state the material-defines section reaches.
pub open spec fn defines_model(ms: Seq<MaterialEntity>, objs: Seq<ObjectEntity>) -> BuildState {
    portal_defines_fold(objs, ms.len(), material_defines_fold(ms))
}

/// A prefix of the material definitions never passes the whole phase.
pub proof fn lemma_material_defines_mono(ms: Seq<MaterialEntity>, i: int)
    requires
        0 <= i <= ms.len(),
    ensures
        material_defines_fold(ms.subrange(0, i)).cursor <= material_defines_fold(ms).cursor,
    decreases ms.len() - i,
{
    if i < ms.len() {
        lemma_material_defines_mono(ms, i + 1);
        assert(ms.subrange(0, i + 1).drop_last() =~= ms.subrange(0, i));
        assert(ms.subrange(0, i + 1).last() == ms[i]);
    } else {
        assert(ms.subrange(0, i) =~= ms);
    }
}

/// The portal definitions only move the cursor forward.
pub proof fn lemma_portal_defines_ge(objs: Seq<ObjectEntity>, base: nat, start: BuildState)
    ensures
        portal_defines_fold(objs, base, start).cursor >= start.cursor,
    decreases objs.len(),
{
    if objs.len() > 0 {
        lemma_portal_defines_ge(objs.drop_last(), base, start);
    }
}

/// A prefix of the portal definitions never passes the whole phase.
pub proof fn lemma_portal_defines_mono(
    objs: Seq<ObjectEntity>,
    base: nat,
    start: BuildState,
    i: int,
)
    requires
        0 <= i <= objs.len(),
    ensures
        portal_defines_fold(objs.subrange(0, i), base, start).cursor <= portal_defines_fold(
            objs,
            base,
            start,
        ).cursor,
        count_portals(objs.subrange(0, i)) <= count_portals(objs),
    decreases objs.len() - i,
{
    if i < objs.len() {
        lemma_portal_defines_mono(objs, base, start, i + 1);
        assert(objs.subrange(0, i + 1).drop_last() =~= objs.subrange(0, i));
        assert(objs.subrange(0, i + 1).last() == objs[i]);
    } else {
        assert(objs.subrange(0, i) =~= objs);
    }
}

/// Builds the material-defines section: one dispatch constant per
/// material, then two per portal, numbered in order.
pub fn build_defines_section(ms: &Vec<MaterialEntity>, objs: &Vec<ObjectEntity>) -> (r:
    StringStorage)
    requires
        ms@.len() <= 1000,
        objs@.len() <= 1000,
        defines_model(ms@, objs@).cursor <= usize::MAX,
    ensures
        r.inv(),
        model_of(r) == defines_model(ms@, objs@),
        r.line_numbers@ == Map::<ErrId, crate::line_index::LineRange>::empty(),
{
    let mut result = StringStorage::default();
    let n = ms.len();
    let mut i: usize = 0;
    proof {
        assert(ms@.subrange(0, 0) =~= Seq::<MaterialEntity>::empty());
        lemma_portal_defines_ge(objs@, ms@.len() as nat, material_defines_fold(ms@));
    }
    while i < n
        invariant
            i <= n,
            n == ms@.len(),
            ms@.len() <= 1000,
            objs@.len() <= 1000,
            defines_model(ms@, objs@).cursor <= usize::MAX,
            material_defines_fold(ms@).cursor <= defines_model(ms@, objs@).cursor,
            result.inv(),
            model_of(result) == material_defines_fold(ms@.subrange(0, i as int)),
            result.line_numbers@ == Map::<ErrId, crate::line_index::LineRange>::empty(),
        decreases n - i,
    {
        proof {
            assert(ms@.subrange(0, i + 1).drop_last() =~= ms@.subrange(0, i as int));
            assert(ms@.subrange(0, i + 1).last() == ms@[i as int]);
            lemma_material_defines_mono(ms@, i + 1);
        }
        let num = format_usize(i);
        let line = cat5(
            "#define ",
            ms[i].name.as_str(),
            "_M (USER_MATERIAL_OFFSET + ",
            num.as_str(),
            ")\n",
        );
        result.add_string(line.as_str());
        proof {
            assert(model_of(result) =~= material_defines_fold(ms@.subrange(0, i + 1)));
        }
        i = i + 1;
    }
    proof {
        assert(ms@.subrange(0, n as int) =~= ms@);
        assert(objs@.subrange(0, 0) =~= Seq::<ObjectEntity>::empty());
    }
    let on = objs.len();
    let mut j: usize = 0;
    let mut counter: usize = n;
    while j < on
        invariant
            j <= on,
            on == objs@.len(),
            n == ms@.len(),
            ms@.len() <= 1000,
            objs@.len() <= 1000,
            defines_model(ms@, objs@).cursor <= usize::MAX,
            counter == ms@.len() + 2 * count_portals(objs@.subrange(0, j as int)),
            count_portals(objs@.subrange(0, j as int)) <= j,
            result.inv(),
            model_of(result) == portal_defines_fold(
                objs@.subrange(0, j as int),
                ms@.len() as nat,
                material_defines_fold(ms@),
            ),
            result.line_numbers@ == Map::<ErrId, crate::line_index::LineRange>::empty(),
        decreases on - j,
    {
        proof {
            assert(objs@.subrange(0, j + 1).drop_last() =~= objs@.subrange(0, j as int));
            assert(objs@.subrange(0, j + 1).last() == objs@[j as int]);
            lemma_portal_defines_mono(objs@, ms@.len() as nat, material_defines_fold(ms@), j + 1);
        }
        let sides = match &objs[j] {
            ObjectEntity::DebugMatrix(_) => None,
            ObjectEntity::Flat { kind: ObjectKind::Simple(_), is_inside: _ } => None,
            ObjectEntity::Complex { kind: ObjectKind::Simple(_), intersect: _ } => None,
            ObjectEntity::Flat { kind: ObjectKind::Portal(a, b), is_inside: _ } => Some((a, b)),
            ObjectEntity::Complex { kind: ObjectKind::Portal(a, b), intersect: _ } => Some(
                (a, b),
            ),
        };
        match sides {
            Some(_) => {
                let pos_num = format_usize(j);
                let cnt1 = format_usize(counter);
                let cnt2 = format_usize(counter + 1);
                let name1 = cat3("teleport_", pos_num.as_str(), "_1_M");
                let name2 = cat3("teleport_", pos_num.as_str(), "_2_M");
                let mut text = String::from_str("#define ");
                text.append(name1.as_str());
                text.append(" (USER_MATERIAL_OFFSET + ");
                text.append(cnt1.as_str());
                text.append(")\n");
                text.append("#define ");
                text.append(name2.as_str());
                text.append(" (USER_MATERIAL_OFFSET + ");
                text.append(cnt2.as_str());
                text.append(")\n");
                proof {
                    assert(text@ =~= portal_define_text(j as nat, counter as nat));
                }
                result.add_string(text.as_str());
                counter = counter + 2;
            },
            None => {},
        }
        proof {
            assert(model_of(result) =~= portal_defines_fold(
                objs@.subrange(0, j + 1),
                ms@.len() as nat,
                material_defines_fold(ms@),
            ));
        }
        j = j + 1;
    }
    proof {
        assert(objs@.subrange(0, on as int) =~= objs@);
    }
    result
}

/// The dispatch branch head for one material.
pub open spec fn material_scaffold_text(name: Seq<char>) -> Seq<char> {
    "} else if (i.material == "@ + name + "_M) {\n"@
}

/// What one material adds to the processing section: its dispatch branch,
/// then either its fixed call or its authored body under its identifier.
pub open spec fn material_step(b: BuildState, m: MaterialEntity, pos: nat) -> BuildState {
    let b1 = append_model(b, material_scaffold_text(m.name@));
    match m.code {
        MaterialCode::Fixed(s) => append_model(b1, s@),
        MaterialCode::Custom(c) => append_model(
            ident_append_model(b1, ErrId((MATERIAL_ID_BASE + pos) as usize), c@),
            "\n"@,
        ),
    }
}

/// The state the processing section reaches after the material branches.
pub open spec fn material_processing_fold(ms: Seq<MaterialEntity>) -> BuildState
    decreases ms.len(),
{
    if ms.len() == 0 {
        empty_model()
    } else {
        material_step(
            material_processing_fold(ms.drop_last()),
            ms.last(),
            (ms.len() - 1) as nat,
        )
    }
}

/// The dispatch branches one portal adds to the processing section.
pub open spec fn portal_processing_text(pos: nat, a: Seq<char>, b: Seq<char>) -> Seq<char> {
    "} else if (i.material == "@ + portal_material_name(pos, false) + ") {\n"@
        + "return material_teleport(hit, r, "@ + teleport_name_spec(a, b) + ");"@
        + "} else if (i.material == "@ + portal_material_name(pos, true) + ") {\n"@
        + "return material_teleport(hit, r, "@ + teleport_name_spec(b, a) + ");"@
}

/// The state the processing section reaches after the portal branches.
pub open spec fn portal_processing_fold(objs: Seq<ObjectEntity>, start: BuildState) -> BuildState
    decreases objs.len(),
{
    if objs.len() == 0 {
        start
    } else {
        let b = portal_processing_fold(objs.drop_last(), start);
        match portal_sides(objs.last()) {
            Some(p) => append_model(b, portal_processing_text((objs.len() - 1) as nat, p.0, p.1)),
            None => b,
        }
    }
}

/// The state the material-processing section reaches.
pub open spec fn processing_model(ms: Seq<MaterialEntity>, objs: Seq<ObjectEntity>) -> BuildState {
    portal_processing_fold(objs, material_processing_fold(ms))
}

/// A prefix of the material branches never passes the whole phase.
pub proof fn lemma_material_processing_mono(ms: Seq<MaterialEntity>, i: int)
    requires
        0 <= i <= ms.len(),
    ensures
        material_processing_fold(ms.subrange(0, i)).cursor <= material_processing_fold(ms).cursor,
    decreases ms.len() - i,
{
    if i < ms.len() {
        lemma_material_processing_mono(ms, i + 1);
        assert(ms.subrange(0, i + 1).drop_last() =~= ms.subrange(0, i));
        assert(ms.subrange(0, i + 1).last() == ms[i]);
    } else {
        assert(ms.subrange(0, i) =~= ms);
    }
}

/// The portal branches only move the cursor forward.
pub proof fn lemma_portal_processing_ge(objs: Seq<ObjectEntity>, start: BuildState)
    ensures
        portal_processing_fold(objs, start).cursor >= start.cursor,
    decreases objs.len(),
{
    if objs.len() > 0 {
        lemma_portal_processing_ge(objs.drop_last(), start);
    }
}

/// A prefix of the portal branches never passes the whole phase.
pub proof fn lemma_portal_processing_mono(objs: Seq<ObjectEntity>, start: BuildState, i: int)
    requires
        0 <= i <= objs.len(),
    ensures
        portal_processing_fold(objs.subrange(0, i), start).cursor <= portal_processing_fold(
            objs,
            start,
        ).cursor,
    decreases objs.len() - i,
{
    if i < objs.len() {
        lemma_portal_processing_mono(objs, start, i + 1);
        assert(objs.subrange(0, i + 1).drop_last() =~= objs.subrange(0, i));
        assert(objs.subrange(0, i + 1).last() == objs[i]);
    } else {
        assert(objs.subrange(0, i) =~= objs);
    }
}

/// One line terminator stands in the newline literal.
pub proof fn lemma_newline_literal()
    ensures
        newline_count("\n"@) == 1,
{
    reveal_strlit("\n");
    assert(newline_count(Seq::<char>::empty()) == 0);
    assert("\n"@.drop_last() =~= Seq::<char>::empty());
    assert("\n"@.last() == '\n');
}

/// Builds the material-processing section: the dispatch chain over all
/// materials, each custom body recorded under its material's identifier,
/// then the portal dispatch branches.
pub fn build_processing_section(ms: &Vec<MaterialEntity>, objs: &Vec<ObjectEntity>) -> (r:
    StringStorage)
    requires
        ms@.len() <= 1000,
        processing_model(ms@, objs@).cursor + 1 <= usize::MAX,
    ensures
        r.inv(),
        model_of(r) == processing_model(ms@, objs@),
        forall|k: ErrId| #[trigger] r.line_numbers@.contains_key(k) ==> MATERIAL_ID_BASE <= k.0
            < MATERIAL_ID_BASE + ms@.len(),
{
    let mut result = StringStorage::default();
    let n = ms.len();
    let mut i: usize = 0;
    proof {
        assert(ms@.subrange(0, 0) =~= Seq::<MaterialEntity>::empty());
        lemma_portal_processing_ge(objs@, material_processing_fold(ms@));
    }
    while i < n
        invariant
            i <= n,
            n == ms@.len(),
            ms@.len() <= 1000,
            processing_model(ms@, objs@).cursor + 1 <= usize::MAX,
            material_processing_fold(ms@).cursor <= processing_model(ms@, objs@).cursor,
            result.inv(),
            model_of(result) == material_processing_fold(ms@.subrange(0, i as int)),
            forall|k: ErrId| #[trigger] result.line_numbers@.contains_key(k) ==> MATERIAL_ID_BASE
                <= k.0 < MATERIAL_ID_BASE + i,
        decreases n - i,
    {
        let ghost b0 = model_of(result);
        proof {
            assert(ms@.subrange(0, i + 1).drop_last() =~= ms@.subrange(0, i as int));
            assert(ms@.subrange(0, i + 1).last() == ms@[i as int]);
            lemma_material_processing_mono(ms@, i + 1);
            lemma_newline_literal();
        }
        let scaffold = cat3("} else if (i.material == ", ms[i].name.as_str(), "_M) {\n");
        result.add_string(scaffold.as_str());
        match &ms[i].code {
            MaterialCode::Fixed(s) => {
                result.add_string(s.as_str());
            },
            MaterialCode::Custom(c) => {
                result.add_identifier_string(ErrId(MATERIAL_ID_BASE + i), c.as_str());
                result.add_string("\n");
            },
        }
        proof {
            assert(model_of(result) =~= material_step(b0, ms@[i as int], i as nat));
            assert(model_of(result) =~= material_processing_fold(ms@.subrange(0, i + 1)));
        }
        i = i + 1;
    }
    proof {
        assert(ms@.subrange(0, n as int) =~= ms@);
        assert(objs@.subrange(0, 0) =~= Seq::<ObjectEntity>::empty());
    }
    let on = objs.len();
    let mut j: usize = 0;
    while j < on
        invariant
            j <= on,
            on == objs@.len(),
            n == ms@.len(),
            ms@.len() <= 1000,
            processing_model(ms@, objs@).cursor + 1 <= usize::MAX,
            result.inv(),
            model_of(result) == portal_processing_fold(
                objs@.subrange(0, j as int),
                material_processing_fold(ms@),
            ),
            forall|k: ErrId| #[trigger] result.line_numbers@.contains_key(k) ==> MATERIAL_ID_BASE
                <= k.0 < MATERIAL_ID_BASE + ms@.len(),
        decreases on - j,
    {
        proof {
            assert(objs@.subrange(0, j + 1).drop_last() =~= objs@.subrange(0, j as int));
            assert(objs@.subrange(0, j + 1).last() == objs@[j as int]);
            lemma_portal_processing_mono(objs@, material_processing_fold(ms@), j + 1);
        }
        let sides = match &objs[j] {
            ObjectEntity::DebugMatrix(_) => None,
            ObjectEntity::Flat { kind: ObjectKind::Simple(_), is_inside: _ } => None,
            ObjectEntity::Complex { kind: ObjectKind::Simple(_), intersect: _ } => None,
            ObjectEntity::Flat { kind: ObjectKind::Portal(a, b), is_inside: _ } => Some((a, b)),
            ObjectEntity::Complex { kind: ObjectKind::Portal(a, b), intersect: _ } => Some(
                (a, b),
            ),
        };
        match sides {
            Some((a, b)) => {
                let pos_num = format_usize(j);
                let name1 = cat3("teleport_", pos_num.as_str(), "_1_M");
                let name2 = cat3("teleport_", pos_num.as_str(), "_2_M");
                let tp_ab = teleport_name(a.as_str(), b.as_str());
                let tp_ba = teleport_name(b.as_str(), a.as_str());
                let mut text = String::from_str("} else if (i.material == ");
                text.append(name1.as_str());
                text.append(") {\n");
                text.append("return material_teleport(hit, r, ");
                text.append(tp_ab.as_str());
                text.append(");");
                text.append("} else if (i.material == ");
                text.append(name2.as_str());
                text.append(") {\n");
                text.append("return material_teleport(hit, r, ");
                text.append(tp_ba.as_str());
                text.append(");");
                proof {
                    assert(text@ =~= portal_processing_text(j as nat, a@, b@));
                }
                result.add_string(text.as_str());
            },
            None => {},
        }
        proof {
            assert(model_of(result) =~= portal_processing_fold(
                objs@.subrange(0, j + 1),
                material_processing_fold(ms@),
            ));
        }
        j = j + 1;
    }
    proof {
        assert(objs@.subrange(0, on as int) =~= objs@);
    }
    result
}

/// Two line terminators stand in the closing-brace literal.
pub proof fn lemma_closing_literal()
    ensures
        newline_count("\n}\n"@) == 2,
{
    reveal_strlit("\n}\n");
    let s = "\n}\n"@;
    assert(newline_count(Seq::<char>::empty()) == 0);
    assert(s.drop_last().drop_last().drop_last() =~= Seq::<char>::empty());
    assert(s.drop_last().drop_last().last() == '\n');
    assert(s.drop_last().last() == '}');
    assert(s.last() == '\n');
    assert(newline_count(s.drop_last().drop_last()) == 1);
    assert(newline_count(s.drop_last()) == 1);
}

/// The signature line of a flat object's containment routine.
pub open spec fn flat_header_text(pos: nat, portal: bool) -> Seq<char> {
    if portal {
        "int is_inside_"@ + dec_digits(pos) + "(vec4 pos, float x, float y, bool back, bool first) {\n"@
    } else {
        "int is_inside_"@ + dec_digits(pos) + "(vec4 pos, float x, float y) {\n"@
    }
}

/// The signature line of a complex object's intersection routine.
pub open spec fn complex_header_text(pos: nat, portal: bool) -> Seq<char> {
    if portal {
        "SceneIntersection intersect_"@ + dec_digits(pos) + "(Ray r, bool first) {\n"@
    } else {
        "SceneIntersection intersect_"@ + dec_digits(pos) + "(Ray r) {\n"@
    }
}

/// What one object adds to the intersection-functions section: its
/// signature scaffold, its authored routine under its identifier, and the
/// closing brace.
pub open spec fn ifuncs_step(b: BuildState, o: ObjectEntity, pos: nat) -> BuildState {
    match o {
        ObjectEntity::DebugMatrix(_) => b,
        ObjectEntity::Flat { kind, is_inside } => append_model(
            ident_append_model(
                append_model(b, flat_header_text(pos, kind_portal_sides(kind) is Some)),
                ErrId((OBJECT_ID_BASE + pos) as usize),
                is_inside@,
            ),
            "\n}\n"@,
        ),
        ObjectEntity::Complex { kind, intersect } => append_model(
            ident_append_model(
                append_model(b, complex_header_text(pos, kind_portal_sides(kind) is Some)),
                ErrId((OBJECT_ID_BASE + pos) as usize),
                intersect@,
            ),
            "\n}\n"@,
        ),
    }
}

/// The state the intersection-functions section reaches.
pub open spec fn ifuncs_fold(objs: Seq<ObjectEntity>) -> BuildState
    decreases objs.len(),
{
    if objs.len() == 0 {
        empty_model()
    } else {
        ifuncs_step(ifuncs_fold(objs.drop_last()), objs.last(), (objs.len() - 1) as nat)
    }
}

/// A prefix of the section never passes the whole.
pub proof fn lemma_ifuncs_mono(objs: Seq<ObjectEntity>, i: int)
    requires
        0 <= i <= objs.len(),
    ensures
        ifuncs_fold(objs.subrange(0, i)).cursor <= ifuncs_fold(objs).cursor,
    decreases objs.len() - i,
{
    if i < objs.len() {
        lemma_ifuncs_mono(objs, i + 1);
        assert(objs.subrange(0, i + 1).drop_last() =~= objs.subrange(0, i));
        assert(objs.subrange(0, i + 1).last() == objs[i]);
    } else {
        assert(objs.subrange(0, i) =~= objs);
    }
}

/// Builds the intersection-functions section: one routine per flat or
/// complex object, its authored body recorded under the object's
/// identifier.
pub fn build_ifuncs_section(objs: &Vec<ObjectEntity>) -> (r: StringStorage)
    requires
        objs@.len() <= 1000,
        ifuncs_fold(objs@).cursor <= usize::MAX,
    ensures
        r.inv(),
        model_of(r) == ifuncs_fold(objs@),
        forall|k: ErrId| #[trigger] r.line_numbers@.contains_key(k) ==> OBJECT_ID_BASE <= k.0
            < OBJECT_ID_BASE + objs@.len(),
{
    let mut result = StringStorage::default();
    let n = objs.len();
    let mut i: usize = 0;
    proof {
        assert(objs@.subrange(0, 0) =~= Seq::<ObjectEntity>::empty());
    }
    while i < n
        invariant
            i <= n,
            n == objs@.len(),
            objs@.len() <= 1000,
            ifuncs_fold(objs@).cursor <= usize::MAX,
            result.inv(),
            model_of(result) == ifuncs_fold(objs@.subrange(0, i as int)),
            forall|k: ErrId| #[trigger] result.line_numbers@.contains_key(k) ==> OBJECT_ID_BASE
                <= k.0 < OBJECT_ID_BASE + i,
        decreases n - i,
    {
        let ghost b0 = model_of(result);
        proof {
            assert(objs@.subrange(0, i + 1).drop_last() =~= objs@.subrange(0, i as int));
            assert(objs@.subrange(0, i + 1).last() == objs@[i as int]);
            lemma_ifuncs_mono(objs@, i + 1);
            lemma_closing_literal();
        }
        match &objs[i] {
            ObjectEntity::DebugMatrix(_) => {},
            ObjectEntity::Flat { kind, is_inside } => {
                let pos_num = format_usize(i);
                let portal = match kind {
                    ObjectKind::Simple(_) => false,
                    ObjectKind::Portal(_, _) => true,
                };
                let header = if portal {
                    cat3(
                        "int is_inside_",
                        pos_num.as_str(),
                        "(vec4 pos, float x, float y, bool back, bool first) {\n",
                    )
                } else {
                    cat3("int is_inside_", pos_num.as_str(), "(vec4 pos, float x, float y) {\n")
                };
                result.add_string(header.as_str());
                result.add_identifier_string(ErrId(OBJECT_ID_BASE + i), is_inside.as_str());
                result.add_string("\n}\n");
            },
            ObjectEntity::Complex { kind, intersect } => {
                let pos_num = format_usize(i);
                let portal = match kind {
                    ObjectKind::Simple(_) => false,
                    ObjectKind::Portal(_, _) => true,
                };
                let header = if portal {
                    cat3("SceneIntersection intersect_", pos_num.as_str(), "(Ray r, bool first) {\n")
                } else {
                    cat3("SceneIntersection intersect_", pos_num.as_str(), "(Ray r) {\n")
                };
                result.add_string(header.as_str());
                result.add_identifier_string(ErrId(OBJECT_ID_BASE + i), intersect.as_str());
                result.add_string("\n}\n");
            },
        }
        proof {
            assert(model_of(result) =~= ifuncs_step(b0, objs@[i as int], i as nat));
            assert(model_of(result) =~= ifuncs_fold(objs@.subrange(0, i + 1)));
        }
        i = i + 1;
    }
    proof {
        assert(objs@.subrange(0, n as int) =~= objs@);
    }
    result
}

/// The ray-transformation scaffold shared by matrix-placed objects.
pub open spec fn transform_text(m: Seq<char>) -> Seq<char> {
    "transformed_ray = transform("@ + inverse_name_spec(m)
        + ", r);\nlen = length(transformed_ray.d);\ntransformed_ray.d = normalize(transformed_ray.d);"@
}

/// The hit-merging scaffold shared by matrix-placed objects.
pub open spec fn merge_hit_text(m: Seq<char>) -> Seq<char> {
    "if (nearer(i, ihit)) { i = ihit; i.hit.n = normalize(("@ + normal_name_spec(m)
        + " * vec4(i.hit.n, 0.)).xyz); }\n\n"@
}

/// The dispatch text of a debug-matrix object.
pub open spec fn debug_object_text(m: Seq<char>) -> Seq<char> {
    transform_text(m) + "ihit = debug_intersect(transformed_ray);\nihit.hit.t /= len;\n"@
        + merge_hit_text(m)
}

/// The dispatch text of a flat object placed by one matrix.
pub open spec fn flat_simple_text(m: Seq<char>, pos: nat) -> Seq<char> {
    "hit = plane_intersect(r, "@ + inverse_name_spec(m) + ", get_normal("@ + normal_name_spec(m)
        + "));\n"@ + "if (nearer(i, hit)) { i = process_plane_intersection(i, hit, is_inside_"@
        + dec_digits(pos) + "(r.o + r.d * hit.t, hit.u, hit.v)); }\n\n"@
}

/// The dispatch text of one side of a flat portal.
pub open spec fn flat_portal_side_text(
    m: Seq<char>,
    first: bool,
    pos: nat,
    mat_name: Seq<char>,
) -> Seq<char> {
    "normal = "@ + (if first {
        "-"@
    } else {
        ""@
    }) + "get_normal("@ + normal_name_spec(m) + ");\n"@ + "hit = plane_intersect(r, "@
        + inverse_name_spec(m) + ", normal);\n"@
        + "if (nearer(i, hit)) { i = process_portal_intersection(i, hit, is_inside_"@ + dec_digits(
        pos,
    ) + "(r.o + r.d * hit.t, hit.u, hit.v, is_collinear(hit.n, normal), "@ + (if first {
        "true"@
    } else {
        "false"@
    }) + "), "@ + mat_name + "); }\n\n"@
}

/// The dispatch text of a flat portal.
pub open spec fn flat_portal_text(a: Seq<char>, b: Seq<char>, pos: nat) -> Seq<char> {
    flat_portal_side_text(a, true, pos, portal_material_name(pos, false)) + flat_portal_side_text(
        b,
        false,
        pos,
        portal_material_name(pos, true),
    )
}

/// The dispatch text of a complex object placed by one matrix.
pub open spec fn complex_simple_text(m: Seq<char>, pos: nat) -> Seq<char> {
    transform_text(m) + "ihit = intersect_"@ + dec_digits(pos)
        + "(transformed_ray);\nihit.hit.t /= len;\n"@ + merge_hit_text(m)
}

/// The dispatch text of one side of a complex portal.
pub open spec fn complex_portal_side_text(
    m: Seq<char>,
    first: bool,
    pos: nat,
    mat_name: Seq<char>,
) -> Seq<char> {
    transform_text(m) + "ihit = intersect_"@ + dec_digits(pos) + "(transformed_ray, "@ + (
    if first {
        "true"@
    } else {
        "false"@
    }) + ");\nihit.hit.t /= len;\n"@
        + "if (nearer(i, ihit) && ihit.material != NOT_INSIDE) { if (ihit.material == TELEPORT) { ihit.material = "@
        + mat_name + "; } i = ihit; i.hit.n = normalize(("@ + normal_name_spec(m)
        + " * vec4(i.hit.n, 0.)).xyz); }\n\n"@
}

/// The dispatch text of a complex portal.
pub open spec fn complex_portal_text(a: Seq<char>, b: Seq<char>, pos: nat) -> Seq<char> {
    complex_portal_side_text(a, true, pos, portal_material_name(pos, false))
        + complex_portal_side_text(b, false, pos, portal_material_name(pos, true))
}

/// The dispatch text one object contributes to the intersections section.
pub open spec fn intersections_object_text(o: ObjectEntity, pos: nat) -> Seq<char> {
    match o {
        ObjectEntity::DebugMatrix(m) => debug_object_text(m@),
        ObjectEntity::Flat { kind: ObjectKind::Simple(m), is_inside: _ } => flat_simple_text(
            m@,
            pos,
        ),
        ObjectEntity::Flat { kind: ObjectKind::Portal(a, b), is_inside: _ } => flat_portal_text(
            a@,
            b@,
            pos,
        ),
        ObjectEntity::Complex { kind: ObjectKind::Simple(m), intersect: _ } => complex_simple_text(
            m@,
            pos,
        ),
        ObjectEntity::Complex { kind: ObjectKind::Portal(a, b), intersect: _ } => complex_portal_text(
            a@,
            b@,
            pos,
        ),
    }
}

/// The state the intersections section reaches.
pub open spec fn intersections_fold(objs: Seq<ObjectEntity>) -> BuildState
    decreases objs.len(),
{
    if objs.len() == 0 {
        empty_model()
    } else {
        append_model(
            intersections_fold(objs.drop_last()),
            intersections_object_text(objs.last(), (objs.len() - 1) as nat) + "\n"@,
        )
    }
}

/// A prefix of the section never passes the whole.
pub proof fn lemma_intersections_mono(objs: Seq<ObjectEntity>, i: int)
    requires
        0 <= i <= objs.len(),
    ensures
        intersections_fold(objs.subrange(0, i)).cursor <= intersections_fold(objs).cursor,
    decreases objs.len() - i,
{
    if i < objs.len() {
        lemma_intersections_mono(objs, i + 1);
        assert(objs.subrange(0, i + 1).drop_last() =~= objs.subrange(0, i));
        assert(objs.subrange(0, i + 1).last() == objs[i]);
    } else {
        assert(objs.subrange(0, i) =~= objs);
    }
}

/// Builds the intersections section: the dispatch text of every object in
/// collection order.  All of it is scaffolding, so nothing is identified.
pub fn build_intersections_section(objs: &Vec<ObjectEntity>) -> (r: StringStorage)
    requires
        intersections_fold(objs@).cursor <= usize::MAX,
    ensures
        r.inv(),
        model_of(r) == intersections_fold(objs@),
        r.line_numbers@ == Map::<ErrId, crate::line_index::LineRange>::empty(),
{
    let mut result = StringStorage::default();
    let n = objs.len();
    let mut i: usize = 0;
    proof {
        assert(objs@.subrange(0, 0) =~= Seq::<ObjectEntity>::empty());
    }
    while i < n
        invariant
            i <= n,
            n == objs@.len(),
            intersections_fold(objs@).cursor <= usize::MAX,
            result.inv(),
            model_of(result) == intersections_fold(objs@.subrange(0, i as int)),
            result.line_numbers@ == Map::<ErrId, crate::line_index::LineRange>::empty(),
        decreases n - i,
    {
        proof {
            assert(objs@.subrange(0, i + 1).drop_last() =~= objs@.subrange(0, i as int));
            assert(objs@.subrange(0, i + 1).last() == objs@[i as int]);
            lemma_intersections_mono(objs@, i + 1);
        }
        let mut text: String = match &objs[i] {
            ObjectEntity::DebugMatrix(m) => {
                let mut t = String::from_str("transformed_ray = transform(");
                t.append(inverse_name(m.as_str()).as_str());
                t.append(
                    ", r);\nlen = length(transformed_ray.d);\ntransformed_ray.d = normalize(transformed_ray.d);",
                );
                t.append("ihit = debug_intersect(transformed_ray);\nihit.hit.t /= len;\n");
                t.append("if (nearer(i, ihit)) { i = ihit; i.hit.n = normalize((");
                t.append(normal_name(m.as_str()).as_str());
                t.append(" * vec4(i.hit.n, 0.)).xyz); }\n\n");
                proof {
                    assert(t@ =~= debug_object_text(m@));
                }
                t
            },
            ObjectEntity::Flat { kind: ObjectKind::Simple(m), is_inside: _ } => {
                let pos_num = format_usize(i);
                let mut t = String::from_str("hit = plane_intersect(r, ");
                t.append(inverse_name(m.as_str()).as_str());
                t.append(", get_normal(");
                t.append(normal_name(m.as_str()).as_str());
                t.append("));\n");
                t.append("if (nearer(i, hit)) { i = process_plane_intersection(i, hit, is_inside_");
                t.append(pos_num.as_str());
                t.append("(r.o + r.d * hit.t, hit.u, hit.v)); }\n\n");
                proof {
                    assert(t@ =~= flat_simple_text(m@, i as nat));
                }
                t
            },
            ObjectEntity::Flat { kind: ObjectKind::Portal(a, b), is_inside: _ } => {
                let mut t = flat_portal_side(a.as_str(), true, i, false);
                let second = flat_portal_side(b.as_str(), false, i, true);
                t.append(second.as_str());
                proof {
                    assert(t@ =~= flat_portal_text(a@, b@, i as nat));
                }
                t
            },
            ObjectEntity::Complex { kind: ObjectKind::Simple(m), intersect: _ } => {
                let pos_num = format_usize(i);
                let mut t = String::from_str("transformed_ray = transform(");
                t.append(inverse_name(m.as_str()).as_str());
                t.append(
                    ", r);\nlen = length(transformed_ray.d);\ntransformed_ray.d = normalize(transformed_ray.d);",
                );
                t.append("ihit = intersect_");
                t.append(pos_num.as_str());
                t.append("(transformed_ray);\nihit.hit.t /= len;\n");
                t.append("if (nearer(i, ihit)) { i = ihit; i.hit.n = normalize((");
                t.append(normal_name(m.as_str()).as_str());
                t.append(" * vec4(i.hit.n, 0.)).xyz); }\n\n");
                proof {
                    assert(t@ =~= complex_simple_text(m@, i as nat));
                }
                t
            },
            ObjectEntity::Complex { kind: ObjectKind::Portal(a, b), intersect: _ } => {
                let mut t = complex_portal_side(a.as_str(), true, i, false);
                let second = complex_portal_side(b.as_str(), false, i, true);
                t.append(second.as_str());
                proof {
                    assert(t@ =~= complex_portal_text(a@, b@, i as nat));
                }
                t
            },
        };
        text.append("\n");
        result.add_string(text.as_str());
        proof {
            assert(model_of(result) =~= intersections_fold(objs@.subrange(0, i + 1)));
        }
        i = i + 1;
    }
    proof {
        assert(objs@.subrange(0, n as int) =~= objs@);
    }
    result
}

/// Renders one side of a flat portal's dispatch text.
fn flat_portal_side(m: &str, first: bool, pos: usize, second_material: bool) -> (r: String)
    ensures
        r@ == flat_portal_side_text(
            m@,
            first,
            pos as nat,
            portal_material_name(pos as nat, second_material),
        ),
{
    let pos_num = format_usize(pos);
    let mat_name = if second_material {
        cat3("teleport_", pos_num.as_str(), "_2_M")
    } else {
        cat3("teleport_", pos_num.as_str(), "_1_M")
    };
    let mut t = String::from_str("normal = ");
    if first {
        t.append("-");
    } else {
        t.append("");
    }
    t.append("get_normal(");
    t.append(normal_name(m).as_str());
    t.append(");\n");
    t.append("hit = plane_intersect(r, ");
    t.append(inverse_name(m).as_str());
    t.append(", normal);\n");
    t.append("if (nearer(i, hit)) { i = process_portal_intersection(i, hit, is_inside_");
    t.append(pos_num.as_str());
    t.append("(r.o + r.d * hit.t, hit.u, hit.v, is_collinear(hit.n, normal), ");
    if first {
        t.append("true");
    } else {
        t.append("false");
    }
    t.append("), ");
    t.append(mat_name.as_str());
    t.append("); }\n\n");
    proof {
        reveal_strlit("");
        assert(t@ =~= flat_portal_side_text(
            m@,
            first,
            pos as nat,
            portal_material_name(pos as nat, second_material),
        ));
    }
    t
}

/// Renders one side of a complex portal's dispatch text.
fn complex_portal_side(m: &str, first: bool, pos: usize, second_material: bool) -> (r: String)
    ensures
        r@ == complex_portal_side_text(
            m@,
            first,
            pos as nat,
            portal_material_name(pos as nat, second_material),
        ),
{
    let pos_num = format_usize(pos);
    let mat_name = if second_material {
        cat3("teleport_", pos_num.as_str(), "_2_M")
    } else {
        cat3("teleport_", pos_num.as_str(), "_1_M")
    };
    let mut t = String::from_str("transformed_ray = transform(");
    t.append(inverse_name(m).as_str());
    t.append(
        ", r);\nlen = length(transformed_ray.d);\ntransformed_ray.d = normalize(transformed_ray.d);",
    );
    t.append("ihit = intersect_");
    t.append(pos_num.as_str());
    t.append("(transformed_ray, ");
    if first {
        t.append("true");
    } else {
        t.append("false");
    }
    t.append(");\nihit.hit.t /= len;\n");
    t.append(
        "if (nearer(i, ihit) && ihit.material != NOT_INSIDE) { if (ihit.material == TELEPORT) { ihit.material = ",
    );
    t.append(mat_name.as_str());
    t.append("; } i = ihit; i.hit.n = normalize((");
    t.append(normal_name(m).as_str());
    t.append(" * vec4(i.hit.n, 0.)).xyz); }\n\n");
    proof {
        assert(t@ =~= complex_portal_side_text(
            m@,
            first,
            pos as nat,
            portal_material_name(pos as nat, second_material),
        ));
    }
    t
}

/// The state the user-library section reaches: each entry's authored code
/// under its identifier, with no scaffolding between entries.
pub open spec fn library_fold(lib: Seq<LibraryEntry>) -> BuildState
    decreases lib.len(),
{
    if lib.len() == 0 {
        empty_model()
    } else {
        ident_append_model(
            library_fold(lib.drop_last()),
            ErrId((LIBRARY_ID_BASE + lib.len() - 1) as usize),
            lib.last().code@,
        )
    }
}

/// A prefix of the section never passes the whole.
pub proof fn lemma_library_mono(lib: Seq<LibraryEntry>, i: int)
    requires
        0 <= i <= lib.len(),
    ensures
        library_fold(lib.subrange(0, i)).cursor <= library_fold(lib).cursor,
    decreases lib.len() - i,
{
    if i < lib.len() {
        lemma_library_mono(lib, i + 1);
        assert(lib.subrange(0, i + 1).drop_last() =~= lib.subrange(0, i));
        assert(lib.subrange(0, i + 1).last() == lib[i]);
    } else {
        assert(lib.subrange(0, i) =~= lib);
    }
}

/// Builds the user-library section.
pub fn build_library_section(lib: &Vec<LibraryEntry>) -> (r: StringStorage)
    requires
        lib@.len() <= 1000,
        library_fold(lib@).cursor + 1 <= usize::MAX,
    ensures
        r.inv(),
        model_of(r) == library_fold(lib@),
        forall|k: ErrId| #[trigger] r.line_numbers@.contains_key(k) ==> LIBRARY_ID_BASE <= k.0
            < LIBRARY_ID_BASE + lib@.len(),
{
    let mut result = StringStorage::default();
    let n = lib.len();
    let mut i: usize = 0;
    proof {
        assert(lib@.subrange(0, 0) =~= Seq::<LibraryEntry>::empty());
    }
    while i < n
        invariant
            i <= n,
            n == lib@.len(),
            lib@.len() <= 1000,
            library_fold(lib@).cursor + 1 <= usize::MAX,
            result.inv(),
            model_of(result) == library_fold(lib@.subrange(0, i as int)),
            forall|k: ErrId| #[trigger] result.line_numbers@.contains_key(k) ==> LIBRARY_ID_BASE
                <= k.0 < LIBRARY_ID_BASE + i,
        decreases n - i,
    {
        proof {
            assert(lib@.subrange(0, i + 1).drop_last() =~= lib@.subrange(0, i as int));
            assert(lib@.subrange(0, i + 1).last() == lib@[i as int]);
            lemma_library_mono(lib@, i + 1);
        }
        result.add_identifier_string(ErrId(LIBRARY_ID_BASE + i), lib[i].code.as_str());
        proof {
            assert(model_of(result) =~= library_fold(lib@.subrange(0, i + 1)));
        }
        i = i + 1;
    }
    proof {
        assert(lib@.subrange(0, n as int) =~= lib@);
    }
    result
}

/// Builds the predefined-library section: the fixed helper routines,
/// appended verbatim with no provenance of their own.
pub fn build_predefined_section(text: &str) -> (r: StringStorage)
    requires
        append_model(empty_model(), text@).cursor <= usize::MAX,
    ensures
        r.inv(),
        model_of(r) == append_model(empty_model(), text@),
        r.line_numbers@ == Map::<ErrId, crate::line_index::LineRange>::empty(),
{
    let mut result = StringStorage::default();
    result.add_string(text);
    proof {
        assert(model_of(result) =~= append_model(empty_model(), text@));
    }
    result
}

/// The eight placeholder names the top-level template uses.
pub open spec fn section_name_list() -> Seq<Seq<char>> {
    seq![
        "uniforms"@,
        "textures"@,
        "material_processing"@,
        "materials_defines"@,
        "intersection_functions"@,
        "intersections"@,
        "library"@,
        "predefined_library"@,
    ]
}

/// The eight section names are pairwise different.
pub proof fn lemma_section_names_distinct()
    ensures
        forall|i: int, j: int|
            0 <= i < j < section_name_list().len() ==> section_name_list()[i]
                != section_name_list()[j],
        "uniforms"@ != "textures"@,
        "uniforms"@ != "material_processing"@,
        "uniforms"@ != "materials_defines"@,
        "uniforms"@ != "intersection_functions"@,
        "uniforms"@ != "intersections"@,
        "uniforms"@ != "library"@,
        "uniforms"@ != "predefined_library"@,
        "textures"@ != "material_processing"@,
        "textures"@ != "materials_defines"@,
        "textures"@ != "intersection_functions"@,
        "textures"@ != "intersections"@,
        "textures"@ != "library"@,
        "textures"@ != "predefined_library"@,
        "material_processing"@ != "materials_defines"@,
        "material_processing"@ != "intersection_functions"@,
        "material_processing"@ != "intersections"@,
        "material_processing"@ != "library"@,
        "material_processing"@ != "predefined_library"@,
        "materials_defines"@ != "intersection_functions"@,
        "materials_defines"@ != "intersections"@,
        "materials_defines"@ != "library"@,
        "materials_defines"@ != "predefined_library"@,
        "intersection_functions"@ != "intersections"@,
        "intersection_functions"@ != "library"@,
        "intersection_functions"@ != "predefined_library"@,
        "intersections"@ != "library"@,
        "intersections"@ != "predefined_library"@,
        "library"@ != "predefined_library"@,
{
    reveal_strlit("uniforms");
    reveal_strlit("textures");
    reveal_strlit("material_processing");
    reveal_strlit("materials_defines");
    reveal_strlit("intersection_functions");
    reveal_strlit("intersections");
    reveal_strlit("library");
    reveal_strlit("predefined_library");
    assert("uniforms"@[0] == 'u' && "textures"@[0] == 't');
    assert("uniforms"@.len() == 8);
    assert("textures"@.len() == 8);
    assert("material_processing"@.len() == 19);
    assert("materials_defines"@.len() == 17);
    assert("intersection_functions"@.len() == 22);
    assert("intersections"@.len() == 13);
    assert("library"@.len() == 7);
    assert("predefined_library"@.len() == 18);
}

/// The template document references exactly the eight section names, each
/// at most once, and every one of them.  Anything else is a template
/// contract violation: a build-time defect of the fixed template.
pub open spec fn template_sections_wf(segs: Seq<Seq<char>>) -> bool {
    &&& forall|i: int|
        0 <= i < segs.len() && i % 2 == 1 ==> section_name_list().contains(#[trigger] segs[i])
    &&& forall|i: int, j: int|
        0 <= i < j < segs.len() && i % 2 == 1 && j % 2 == 1 ==> segs[i] != segs[j]
    &&& forall|n: Seq<char>|
        section_name_list().contains(n) ==> exists|i: int|
            0 <= i < segs.len() && i % 2 == 1 && #[trigger] segs[i] == n
}

/// The section states that generation derives from the scene: one named
/// builder state per template placeholder.
pub open spec fn scene_sections(scene: SceneModel, predefined: Seq<char>) -> Map<
    Seq<char>,
    BuildState,
> {
    Map::<Seq<char>, BuildState>::empty().insert(
        "uniforms"@,
        uniforms_section_model(uniform_decls_spec(scene.objects@, scene.uniforms@)),
    ).insert("textures"@, textures_section_model(name_views(scene.textures@))).insert(
        "material_processing"@,
        processing_model(scene.materials@, scene.objects@),
    ).insert("materials_defines"@, defines_model(scene.materials@, scene.objects@)).insert(
        "intersection_functions"@,
        ifuncs_fold(scene.objects@),
    ).insert("intersections"@, intersections_fold(scene.objects@)).insert(
        "library"@,
        library_fold(scene.library@),
    ).insert("predefined_library"@, append_model(empty_model(), predefined))
}

/// The expanded document, and every section, stays within the machine's
/// line numbers.
pub open spec fn sections_fit(segs: Seq<Seq<char>>, sm: Map<Seq<char>, BuildState>) -> bool {
    &&& expand_states(segs, sm, 0, empty_model()).cursor + 1 <= usize::MAX
    &&& forall|n: Seq<char>| #[trigger] sm.contains_key(n) ==> sm[n].cursor + 1 <= usize::MAX
    &&& forall|n: Seq<char>| #[trigger] sm.contains_key(n) ==> can_shift(
        sm[n].index,
        expand_states(segs, sm, 0, empty_model()).cursor - 1,
    )
}

/// Assembles the final document: derives every named section from the
/// scene's entity collections, assigning each authored fragment its
/// deterministic identifier, and expands the fixed top-level template,
/// yielding the document text and its aggregate provenance index.
pub fn generate_shader_code(scene: &SceneModel, template: &str, predefined_library: &str) -> (r:
    StringStorage)
    requires
        template_sections_wf(split_spec(template@)),
        scene.materials@.len() <= 1000,
        scene.objects@.len() <= 1000,
        scene.library@.len() <= 1000,
        sections_fit(split_spec(template@), scene_sections(*scene, predefined_library@)),
    ensures
        r.inv(),
        model_of(r) == expand_states(
            split_spec(template@),
            scene_sections(*scene, predefined_library@),
            0,
            empty_model(),
        ),
{
    let ghost segs = split_spec(template@);
    let ghost sm = scene_sections(*scene, predefined_library@);
    proof {
        lemma_section_names_distinct();
        assert(sm.contains_key("uniforms"@) && sm["uniforms"@] == uniforms_section_model(
            uniform_decls_spec(scene.objects@, scene.uniforms@),
        ));
        assert(sm.contains_key("textures"@) && sm["textures"@] == textures_section_model(
            name_views(scene.textures@),
        ));
        assert(sm.contains_key("material_processing"@) && sm["material_processing"@]
            == processing_model(scene.materials@, scene.objects@));
        assert(sm.contains_key("materials_defines"@) && sm["materials_defines"@] == defines_model(
            scene.materials@,
            scene.objects@,
        ));
        assert(sm.contains_key("intersection_functions"@) && sm["intersection_functions"@]
            == ifuncs_fold(scene.objects@));
        assert(sm.contains_key("intersections"@) && sm["intersections"@] == intersections_fold(
            scene.objects@,
        ));
        assert(sm.contains_key("library"@) && sm["library"@] == library_fold(scene.library@));
        assert(sm.contains_key("predefined_library"@) && sm["predefined_library"@] == append_model(
            empty_model(),
            predefined_library@,
        ));
    }
    let decls = uniform_declarations(&scene.objects, &scene.uniforms);
    let sec_uniforms = build_uniforms_section(&decls);
    let sec_textures = build_textures_section(&scene.textures);
    let sec_processing = build_processing_section(&scene.materials, &scene.objects);
    let sec_defines = build_defines_section(&scene.materials, &scene.objects);
    let sec_ifuncs = build_ifuncs_section(&scene.objects);
    let sec_intersections = build_intersections_section(&scene.objects);
    let sec_library = build_library_section(&scene.library);
    let sec_predefined = build_predefined_section(predefined_library);
    let mut storages = NamedStorages::default();
    storages.insert(String::from_str("uniforms"), sec_uniforms);
    storages.insert(String::from_str("textures"), sec_textures);
    storages.insert(String::from_str("material_processing"), sec_processing);
    storages.insert(String::from_str("materials_defines"), sec_defines);
    storages.insert(String::from_str("intersection_functions"), sec_ifuncs);
    storages.insert(String::from_str("intersections"), sec_intersections);
    storages.insert(String::from_str("library"), sec_library);
    storages.insert(String::from_str("predefined_library"), sec_predefined);
    proof {
        let m = storages@;
        assert forall|n: Seq<char>| #[trigger] m.contains_key(n) implies section_name_list().contains(
            n,
        ) && sm.contains_key(n) && model_of(m[n]) == sm[n] && m[n].inv() by {
            if n == "uniforms"@ {
                assert(section_name_list()[0] == n);
            } else if n == "textures"@ {
                assert(section_name_list()[1] == n);
            } else if n == "material_processing"@ {
                assert(section_name_list()[2] == n);
            } else if n == "materials_defines"@ {
                assert(section_name_list()[3] == n);
            } else if n == "intersection_functions"@ {
                assert(section_name_list()[4] == n);
            } else if n == "intersections"@ {
                assert(section_name_list()[5] == n);
            } else if n == "library"@ {
                assert(section_name_list()[6] == n);
            } else {
                assert(n == "predefined_library"@);
                assert(section_name_list()[7] == n);
            }
        }
        assert forall|j: int|
            0 <= j < segs.len() && j % 2 == 1 implies m.contains_key(#[trigger] segs[j]) by {
            assert(section_name_list().contains(segs[j]));
            let l = choose|l: int|
                0 <= l < section_name_list().len() && section_name_list()[l] == segs[j];
            if l == 0 {
                assert(m.contains_key("uniforms"@));
            } else if l == 1 {
                assert(m.contains_key("textures"@));
            } else if l == 2 {
                assert(m.contains_key("material_processing"@));
            } else if l == 3 {
                assert(m.contains_key("materials_defines"@));
            } else if l == 4 {
                assert(m.contains_key("intersection_functions"@));
            } else if l == 5 {
                assert(m.contains_key("intersections"@));
            } else if l == 6 {
                assert(m.contains_key("library"@));
            } else {
                assert(m.contains_key("predefined_library"@));
            }
        }
        assert(placeholders_wf(segs, m)) by {
            assert forall|n: Seq<char>| #[trigger] m.contains_key(n) implies exists|i: int|
                0 <= i < segs.len() && i % 2 == 1 && segs[i] == n by {
                assert(section_name_list().contains(n));
            }
        }
        assert(sections_wf(m));
        assert(sections_disjoint(m)) by {
            assert forall|n1: Seq<char>, n2: Seq<char>|
                #[trigger] m.contains_key(n1) && #[trigger] m.contains_key(n2) && n1 != n2
                implies m[n1].line_numbers@.dom().disjoint(m[n2].line_numbers@.dom()) by {
                assert forall|k: ErrId| m[n1].line_numbers@.dom().contains(k)
                    implies !m[n2].line_numbers@.dom().contains(k) by {
                    assert(m[n1].line_numbers@.contains_key(k));
                    if m[n2].line_numbers@.contains_key(k) {
                        assert(false);
                    }
                }
            }
        }
        lemma_expand_agree(segs, m, sm, 0, empty_model());
        assert(template_ok(segs, m));
    }
    let result = apply_template(template, storages);
    result
}

} // verus!
