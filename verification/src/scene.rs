//! A scene: what there is, never how it is drawn.

use vstd::prelude::*;

use crate::copies::{clone_vec, copy_opt};
use crate::float::{Float, ONE_BITS};
use crate::graph::{Graph, GraphView};
use crate::macros::{MacroSet, MacroValue};
use crate::text;
use crate::text::push_number;

pub use crate::tag_expr::{TagExpr, TagExprError};
pub use crate::tags::{Tags, TAG_OPAQUE, TAG_TRANSPARENT};

verus! {

/// Where a mesh comes from.
#[derive(Debug, PartialEq)]
pub enum MeshSource {
    /// A cube around the origin.
    Cube {
        /// The length of an edge.
        size: Float,
    },
    /// A sphere.
    Sphere {
        /// The radius.
        radius: Float,
    },
    /// A quad in the xz plane, facing up.
    Plane {
        /// The length of an edge.
        size: Float,
    },
    /// A torus around the y axis.
    Torus {
        /// The radius of the ring.
        radius: Float,
        /// The radius of the tube.
        tube_radius: Float,
    },
    /// A file.
    File {
        /// The path, relative to the scene.
        path: String,
        /// Which primitive of the file; all of them where there is none.
        primitive: Option<usize>,
    },
}

/// What a [`MeshSource`] stands for.
#[verifier::ext_equal]
pub enum MeshSourceView {
    /// A cube around the origin.
    Cube {
        /// The length of an edge.
        size: Float,
    },
    /// A sphere.
    Sphere {
        /// The radius.
        radius: Float,
    },
    /// A quad in the xz plane, facing up.
    Plane {
        /// The length of an edge.
        size: Float,
    },
    /// A torus around the y axis.
    Torus {
        /// The radius of the ring.
        radius: Float,
        /// The radius of the tube.
        tube_radius: Float,
    },
    /// A file.
    File {
        /// The path, relative to the scene.
        path: Seq<char>,
        /// Which primitive of the file.
        primitive: Option<usize>,
    },
}

impl View for MeshSource {
    type V = MeshSourceView;

    open spec fn view(&self) -> MeshSourceView {
        match *self {
            MeshSource::Cube { size } => MeshSourceView::Cube { size },
            MeshSource::Sphere { radius } => MeshSourceView::Sphere { radius },
            MeshSource::Plane { size } => MeshSourceView::Plane { size },
            MeshSource::Torus { radius, tube_radius } => MeshSourceView::Torus {
                radius,
                tube_radius,
            },
            MeshSource::File { path, primitive } => MeshSourceView::File {
                path: path@,
                primitive,
            },
        }
    }
}

impl Clone for MeshSource {
    fn clone(&self) -> (r: Self)
        ensures
            r@ == self@,
    {
        match self {
            MeshSource::Cube { size } => MeshSource::Cube { size: *size },
            MeshSource::Sphere { radius } => MeshSource::Sphere { radius: *radius },
            MeshSource::Plane { size } => MeshSource::Plane { size: *size },
            MeshSource::Torus { radius, tube_radius } => MeshSource::Torus {
                radius: *radius,
                tube_radius: *tube_radius,
            },
            MeshSource::File { path, primitive } => MeshSource::File {
                path: path.clone(),
                primitive: *primitive,
            },
        }
    }
}

/// A mesh of a scene.
#[derive(Debug, PartialEq)]
pub struct MeshEntry {
    /// Its name.
    pub name: String,
    /// Where it comes from.
    pub source: MeshSource,
}

/// What a [`MeshEntry`] stands for.
#[verifier::ext_equal]
pub struct MeshEntryView {
    /// Its name.
    pub name: Seq<char>,
    /// Where it comes from.
    pub source: MeshSourceView,
}

impl View for MeshEntry {
    type V = MeshEntryView;

    open spec fn view(&self) -> MeshEntryView {
        MeshEntryView {
            name: self.name@,
            source: self.source@,
        }
    }
}

impl Clone for MeshEntry {
    fn clone(&self) -> (r: Self)
        ensures
            r@ == self@,
    {
        MeshEntry {
            name: self.name.clone(),
            source: self.source.clone(),
        }
    }
}

/// A material of a scene.
#[derive(Debug, PartialEq)]
pub struct MaterialEntry {
    /// Its name.
    pub name: String,
    /// The graph that computes its surface.
    pub graph: Graph,
    /// Macro values over the graph's own.
    pub macros: MacroSet,
    /// What it is, for a pass to select on.
    pub tags: Tags,
}

/// What a [`MaterialEntry`] stands for.
#[verifier::ext_equal]
pub struct MaterialEntryView {
    /// Its name.
    pub name: Seq<char>,
    /// The graph that computes its surface.
    pub graph: GraphView,
    /// Macro values over the graph's own.
    pub macros: Map<Seq<char>, MacroValue>,
    /// What it is, for a pass to select on.
    pub tags: Set<Seq<char>>,
}

impl View for MaterialEntry {
    type V = MaterialEntryView;

    open spec fn view(&self) -> MaterialEntryView {
        MaterialEntryView {
            name: self.name@,
            graph: self.graph@,
            macros: self.macros@,
            tags: self.tags@,
        }
    }
}

impl Clone for MaterialEntry {
    fn clone(&self) -> (r: Self)
        ensures
            r@ == self@,
    {
        MaterialEntry {
            name: self.name.clone(),
            graph: self.graph.clone(),
            macros: self.macros.clone(),
            tags: self.tags.clone(),
        }
    }
}

/// One thing to draw.
#[derive(Debug, PartialEq)]
pub struct Instance {
    /// Its name.
    pub name: String,
    /// The mesh, by its place in the scene.
    pub mesh: usize,
    /// The material, by its place in the scene.
    pub material: usize,
    /// The matrix from object to world, by columns.
    pub transform: [Float; 16],
    /// Tags of its own, in place of the material's.
    pub tags: Option<Tags>,
}

/// What an [`Instance`] stands for.
#[verifier::ext_equal]
pub struct InstanceView {
    /// Its name.
    pub name: Seq<char>,
    /// The mesh, by its place in the scene.
    pub mesh: usize,
    /// The material, by its place in the scene.
    pub material: usize,
    /// The matrix from object to world, by columns.
    pub transform: [Float; 16],
    /// Tags of its own, in place of the material's.
    pub tags: Option<Set<Seq<char>>>,
}

impl View for Instance {
    type V = InstanceView;

    open spec fn view(&self) -> InstanceView {
        InstanceView {
            name: self.name@,
            mesh: self.mesh,
            material: self.material,
            transform: self.transform,
            tags: text::opt_of(self.tags),
        }
    }
}

impl Clone for Instance {
    fn clone(&self) -> (r: Self)
        ensures
            r@ == self@,
    {
        Instance {
            name: self.name.clone(),
            mesh: self.mesh,
            material: self.material,
            transform: self.transform,
            tags: copy_opt(&self.tags),
        }
    }
}

/// A scene: its meshes, its materials, and what is where.
#[derive(Debug, PartialEq)]
pub struct Scene {
    /// Its name.
    pub name: String,
    /// What the instances draw.
    pub meshes: Vec<MeshEntry>,
    /// What the instances wear.
    pub materials: Vec<MaterialEntry>,
    /// One for each thing to draw.
    pub instances: Vec<Instance>,
}

/// What a [`Scene`] stands for.
#[verifier::ext_equal]
pub struct SceneView {
    /// Its name.
    pub name: Seq<char>,
    /// What the instances draw.
    pub meshes: Seq<MeshEntryView>,
    /// What the instances wear.
    pub materials: Seq<MaterialEntryView>,
    /// One for each thing to draw.
    pub instances: Seq<InstanceView>,
}

impl View for Scene {
    type V = SceneView;

    open spec fn view(&self) -> SceneView {
        SceneView {
            name: self.name@,
            meshes: text::seq_of(self.meshes@),
            materials: text::seq_of(self.materials@),
            instances: text::seq_of(self.instances@),
        }
    }
}

impl Clone for Scene {
    fn clone(&self) -> (r: Self)
        ensures
            r@ == self@,
    {
        Scene {
            name: self.name.clone(),
            meshes: clone_vec(&self.meshes),
            materials: clone_vec(&self.materials),
            instances: clone_vec(&self.instances),
        }
    }
}

impl Default for Scene {
    fn default() -> (r: Self)
        ensures
            r@ == empty_scene(""@),
    {
        Scene::new("")
    }
}

/// A scene with nothing in it.
pub open spec fn empty_scene(name: Seq<char>) -> SceneView {
    SceneView {
        name,
        meshes: Seq::empty(),
        materials: Seq::empty(),
        instances: Seq::empty(),
    }
}

/// What is wrong with a scene.
#[derive(Clone, Copy, Debug, PartialEq, Eq, Structural)]
pub enum SceneError {
    /// An instance names a mesh that there is not.
    NoSuchMesh {
        /// The instance, by its place.
        instance: usize,
        /// The mesh it names.
        mesh: usize,
    },
    /// An instance names a material that there is not.
    NoSuchMaterial {
        /// The instance, by its place.
        instance: usize,
        /// The material it names.
        material: usize,
    },
}

/// The message of an error.
pub open spec fn scene_error_text(e: SceneError) -> Seq<char> {
    match e {
        SceneError::NoSuchMesh { instance, mesh } => "instance "@ + text::decimal(instance as nat)
            + " names mesh "@ + text::decimal(mesh as nat) + ", which does not exist"@,
        SceneError::NoSuchMaterial { instance, material } => "instance "@ + text::decimal(
            instance as nat,
        ) + " names material "@ + text::decimal(material as nat) + ", which does not exist"@,
    }
}

impl SceneError {
    /// The message of the error.
    pub fn text(&self) -> (r: String)
        ensures
            r@ == scene_error_text(*self),
    {
        let mut out = "instance ".to_owned();
        match self {
            SceneError::NoSuchMesh { instance, mesh } => {
                push_number(&mut out, *instance as u64);
                out.append(" names mesh ");
                push_number(&mut out, *mesh as u64);
            },
            SceneError::NoSuchMaterial { instance, material } => {
                push_number(&mut out, *instance as u64);
                out.append(" names material ");
                push_number(&mut out, *material as u64);
            },
        }
        out.append(", which does not exist");
        out
    }
}

/// What is wrong with an instance at a place.
pub open spec fn instance_errors(s: SceneView, i: int) -> Seq<SceneError> {
    let instance = s.instances[i];
    (if instance.mesh >= s.meshes.len() {
        seq![SceneError::NoSuchMesh { instance: i as usize, mesh: instance.mesh }]
    } else {
        Seq::empty()
    }) + (if instance.material >= s.materials.len() {
        seq![SceneError::NoSuchMaterial { instance: i as usize, material: instance.material }]
    } else {
        Seq::empty()
    })
}

/// What is wrong with the first `n` instances.
pub open spec fn scene_errors(s: SceneView, n: int) -> Seq<SceneError>
    decreases n,
{
    if n <= 0 {
        Seq::empty()
    } else {
        scene_errors(s, n - 1) + instance_errors(s, n - 1)
    }
}

/// The tags that an instance is drawn under: its own, or those of its
/// material. An instance of no material has none.
pub open spec fn tags_of_instance(s: SceneView, i: InstanceView) -> Set<Seq<char>> {
    match i.tags {
        Some(tags) => tags,
        None => if i.material < s.materials.len() {
            s.materials[i.material as int].tags
        } else {
            Set::empty()
        },
    }
}

impl Scene {
    /// A scene with nothing in it.
    pub fn new(name: &str) -> (r: Self)
        ensures
            r@ == empty_scene(name@),
    {
        let r = Scene {
            name: name.to_owned(),
            meshes: Vec::new(),
            materials: Vec::new(),
            instances: Vec::new(),
        };
        assert(r@ =~= empty_scene(name@));
        r
    }

    /// Add a mesh, answering its place.
    pub fn add_mesh(&mut self, entry: MeshEntry) -> (r: usize)
        ensures
            r == old(self)@.meshes.len(),
            final(self)@ == (SceneView {
                meshes: old(self)@.meshes.push(entry@),
                ..old(self)@
            }),
    {
        let r: usize = self.meshes.len();
        self.meshes.push(entry);
        assert(text::seq_of(self.meshes@) =~= old(self)@.meshes.push(entry@));
        r
    }

    /// Add a material, answering its place.
    pub fn add_material(&mut self, entry: MaterialEntry) -> (r: usize)
        ensures
            r == old(self)@.materials.len(),
            final(self)@ == (SceneView {
                materials: old(self)@.materials.push(entry@),
                ..old(self)@
            }),
    {
        let r: usize = self.materials.len();
        self.materials.push(entry);
        assert(text::seq_of(self.materials@) =~= old(self)@.materials.push(entry@));
        r
    }

    /// Add an instance, answering its place.
    pub fn add_instance(&mut self, instance: Instance) -> (r: usize)
        ensures
            r == old(self)@.instances.len(),
            final(self)@ == (SceneView {
                instances: old(self)@.instances.push(instance@),
                ..old(self)@
            }),
    {
        let r: usize = self.instances.len();
        self.instances.push(instance);
        assert(text::seq_of(self.instances@) =~= old(self)@.instances.push(instance@));
        r
    }

    /// The tags that an instance is drawn under.
    pub fn instance_tags(&self, instance: &Instance) -> (r: Tags)
        ensures
            r@ == tags_of_instance(self@, instance@),
    {
        match &instance.tags {
            Some(tags) => tags.clone(),
            None => {
                assert(self@.materials.len() == self.materials@.len());
                if instance.material < self.materials.len() {
                    assert(self@.materials[instance.material as int]
                        == self.materials@[instance.material as int]@);
                    self.materials[instance.material].tags.clone()
                } else {
                    Tags::new()
                }
            },
        }
    }

    /// Everything that is wrong with the scene: an instance of a mesh or a
    /// material that there is not.
    pub fn validate(&self) -> (r: Vec<SceneError>)
        ensures
            r@ == scene_errors(self@, self@.instances.len() as int),
    {
        let ghost s = self@;
        let mut errors: Vec<SceneError> = Vec::new();
        let mut i: usize = 0;
        while i < self.instances.len()
            invariant
                s == self@,
                i <= s.instances.len() == self.instances@.len(),
                errors@ == scene_errors(s, i as int),
            decreases s.instances.len() - i,
        {
            assert(s.instances[i as int] == self.instances@[i as int]@);
            assert(s.meshes.len() == self.meshes@.len());
            assert(s.materials.len() == self.materials@.len());
            let ghost before = errors@;
            if self.instances[i].mesh >= self.meshes.len() {
                errors.push(
                    SceneError::NoSuchMesh { instance: i, mesh: self.instances[i].mesh },
                );
            }
            if self.instances[i].material >= self.materials.len() {
                errors.push(
                    SceneError::NoSuchMaterial {
                        instance: i,
                        material: self.instances[i].material,
                    },
                );
            }
            assert(errors@ =~= before + instance_errors(s, i as int));
            i += 1;
        }
        errors
    }
}

impl MeshEntry {
    /// A mesh of this name.
    pub fn new(name: &str, source: MeshSource) -> (r: Self)
        ensures
            r@ == (MeshEntryView { name: name@, source: source@ }),
    {
        MeshEntry { name: name.to_owned(), source }
    }
}

impl MaterialEntry {
    /// An opaque material of this name.
    pub fn new(name: &str, graph: Graph) -> (r: Self)
        ensures
            r@ == (MaterialEntryView {
                name: name@,
                graph: graph@,
                macros: Map::empty(),
                tags: Set::empty().insert(TAG_OPAQUE@),
            }),
    {
        let mut tags = Tags::new();
        tags.insert(TAG_OPAQUE);
        MaterialEntry { name: name.to_owned(), graph, macros: MacroSet::new(), tags }
    }

    /// With these tags.
    pub fn with_tags(self, tags: Tags) -> (r: Self)
        ensures
            r@ == (MaterialEntryView { tags: tags@, ..self@ }),
    {
        MaterialEntry { name: self.name, graph: self.graph, macros: self.macros, tags }
    }

    /// With these macro values.
    pub fn with_macros(self, macros: MacroSet) -> (r: Self)
        ensures
            r@ == (MaterialEntryView { macros: macros@, ..self@ }),
    {
        MaterialEntry { name: self.name, graph: self.graph, macros, tags: self.tags }
    }
}

/// The matrix that moves nothing: ones along the diagonal.
pub open spec fn is_identity(m: [Float; 16]) -> bool {
    forall|i: int| 0 <= i < 16 ==> (#[trigger] m@[i]) == (Float {
        bits: if i % 5 == 0 {
            ONE_BITS
        } else {
            0
        },
    })
}

/// The matrix that moves nothing.
fn identity_transform() -> (r: [Float; 16])
    ensures
        is_identity(r),
{
    let o = Float { bits: ONE_BITS };
    let z = Float { bits: 0 };
    [o, z, z, z, z, o, z, z, z, z, o, z, z, z, z, o]
}

impl Instance {
    /// An instance of a mesh with a material, at the origin.
    pub fn new(mesh: usize, material: usize) -> (r: Self)
        ensures
            r@.name == ""@,
            r@.mesh == mesh,
            r@.material == material,
            is_identity(r@.transform),
            r@.tags is None,
    {
        Instance {
            name: "".to_owned(),
            mesh,
            material,
            transform: identity_transform(),
            tags: None,
        }
    }

    /// With this name.
    pub fn with_name(self, name: &str) -> (r: Self)
        ensures
            r@ == (InstanceView { name: name@, ..self@ }),
    {
        Instance { name: name.to_owned(), ..self }
    }

    /// With this matrix.
    pub fn with_transform(self, transform: [Float; 16]) -> (r: Self)
        ensures
            r@ == (InstanceView { transform, ..self@ }),
    {
        Instance { transform, ..self }
    }

    /// With tags of its own.
    pub fn with_tags(self, tags: Tags) -> (r: Self)
        ensures
            r@ == (InstanceView { tags: Some(tags@), ..self@ }),
    {
        Instance { tags: Some(tags), ..self }
    }
}

/// A scene is sound exactly where every instance has its mesh and its
/// material.
pub proof fn no_error_means_nothing_dangles(s: SceneView)
    ensures
        scene_errors(s, s.instances.len() as int).len() == 0 <==> forall|i: int|
            0 <= i < s.instances.len() ==> (#[trigger] s.instances[i]).mesh < s.meshes.len()
                && s.instances[i].material < s.materials.len(),
{
    lemma_errors(s, s.instances.len() as int);
}

proof fn lemma_errors(s: SceneView, n: int)
    requires
        0 <= n <= s.instances.len(),
    ensures
        scene_errors(s, n).len() == 0 <==> forall|i: int|
            0 <= i < n ==> (#[trigger] s.instances[i]).mesh < s.meshes.len()
                && s.instances[i].material < s.materials.len(),
    decreases n,
{
    if n > 0 {
        lemma_errors(s, n - 1);
        let last = s.instances[n - 1];
        assert(instance_errors(s, n - 1).len() == 0 <==> last.mesh < s.meshes.len()
            && last.material < s.materials.len());
    }
}


/// Whether a problem is one that a scene has: an instance that names a mesh or
/// a material that is not there.
pub open spec fn dangles(s: SceneView, e: SceneError) -> bool {
    match e {
        SceneError::NoSuchMesh { instance, mesh } => instance < s.instances.len()
            && s.instances[instance as int].mesh == mesh && mesh >= s.meshes.len(),
        SceneError::NoSuchMaterial { instance, material } => instance < s.instances.len()
            && s.instances[instance as int].material == material && material >= s.materials.len(),
    }
}

/// The problems of a scene are exactly its instances that name a mesh or a
/// material that is not there, each told once for each.
pub proof fn every_dangling_instance_is_told(s: SceneView, n: int, e: SceneError)
    requires
        0 <= n <= s.instances.len() <= usize::MAX,
    ensures
        scene_errors(s, n).contains(e) <==> dangles(s, e) && (match e {
            SceneError::NoSuchMesh { instance, .. } => instance < n,
            SceneError::NoSuchMaterial { instance, .. } => instance < n,
        }),
    decreases n,
{
    let all = scene_errors(s, n);
    if n > 0 {
        every_dangling_instance_is_told(s, n - 1, e);
        let before = scene_errors(s, n - 1);
        let more = instance_errors(s, n - 1);
        let i = s.instances[n - 1];
        let lost = SceneError::NoSuchMesh { instance: (n - 1) as usize, mesh: i.mesh };
        let bare = SceneError::NoSuchMaterial {
            instance: (n - 1) as usize,
            material: i.material,
        };
        assert(more.contains(e) <==> (e == lost && i.mesh >= s.meshes.len()) || (e == bare
            && i.material >= s.materials.len())) by {
            if i.mesh >= s.meshes.len() {
                assert(more[0] == lost);
            }
            if i.material >= s.materials.len() {
                assert(more[more.len() - 1] == bare);
            }
        }
        if before.contains(e) {
            let k = choose|k: int| 0 <= k < before.len() && before[k] == e;
            assert(all[k] == e);
        }
        if more.contains(e) {
            let k = choose|k: int| 0 <= k < more.len() && more[k] == e;
            assert(all[before.len() + k] == e);
        }
        if all.contains(e) {
            let k = choose|k: int| 0 <= k < all.len() && all[k] == e;
            if k < before.len() {
                assert(before[k] == e);
            } else {
                assert(more[k - before.len()] == e);
            }
        }
    }
}

} // verus!
