use vstd::prelude::*;
use vstd::string::StringExecFns;
use crate::name_map::NameMap;
use crate::text::chars_of;
use crate::text::string_of;

verus! {

/// A triangle of a mesh: the positions of its three corners in the list of
/// vertices, the position of its material in the list of materials if it has one,
/// and its normal. `V` is the vector type; a face never looks inside its normal.
#[derive(Debug, Clone, PartialEq)]
pub struct Face<V> {
    pub v0: usize,
    pub v1: usize,
    pub v2: usize,
    pub mat: Option<usize>,
    pub normal: V,
}

/// Why a face was not taken into a mesh: the corner at this place of the face,
/// counted from zero, names a vertex that the mesh does not have yet.
#[derive(Debug, Copy, Clone, PartialEq, Eq, Structural)]
pub struct MeshError {
    pub corner: usize,
}

/// A triangle mesh under construction or in use. `V` is the vector type, `M` the
/// material type; the mesh looks inside neither.
///
/// Every corner of every face is a vertex of the mesh, and every material that a
/// face or a name leads to is a material of the mesh.
pub struct Mesh<V, M> {
    materials: Vec<M>,
    names: NameMap<usize>,
    current: Option<usize>,
    default_material: M,
    vertices: Vec<V>,
    faces: Vec<Face<V>>,
}

/// Whether each corner of each of `faces` is one of `vertices` vertices.
pub open spec fn corners_valid<V>(faces: Seq<Face<V>>, vertices: nat) -> bool {
    forall|i: int|
        0 <= i < faces.len() ==> (#[trigger] faces[i]).v0 < vertices && faces[i].v1 < vertices
            && faces[i].v2 < vertices
}

/// Whether each material that one of `faces` names is one of `materials`
/// materials.
pub open spec fn materials_valid<V>(faces: Seq<Face<V>>, materials: nat) -> bool {
    forall|i: int|
        0 <= i < faces.len() ==> ((#[trigger] faces[i]).mat matches Some(m) ==> m < materials)
}

/// The part of `path` up to and including its last slash before `to`; empty if
/// there is no slash.
pub open spec fn directory_before(path: Seq<char>, to: int) -> Seq<char>
    decreases to,
{
    if 0 < to <= path.len() && path[to - 1] != '/' {
        directory_before(path, to - 1)
    } else if 0 < to <= path.len() {
        path.take(to)
    } else {
        Seq::empty()
    }
}

/// The directory of the file at `path`, with its closing slash; empty if `path`
/// has no slash.
pub open spec fn directory(path: Seq<char>) -> Seq<char> {
    directory_before(path, path.len() as int)
}

impl<V, M> Mesh<V, M> {
    #[verifier::type_invariant]
    spec fn well_formed(&self) -> bool {
        &&& corners_valid(self.faces@, self.vertices@.len())
        &&& materials_valid(self.faces@, self.materials@.len())
        &&& forall|name: Seq<char>| #[trigger]
            self.names.map().contains_key(name) ==> self.names.map()[name] < self.materials@.len()
        &&& self.current matches Some(i) ==> i < self.materials@.len()
    }

    /// The vertices, in the order in which they came in.
    pub closed spec fn vertex_list(&self) -> Seq<V> {
        self.vertices@
    }

    /// The faces, in the order in which they came in.
    pub closed spec fn face_list(&self) -> Seq<Face<V>> {
        self.faces@
    }

    /// The materials, in the order in which they came in.
    pub closed spec fn material_list(&self) -> Seq<M> {
        self.materials@
    }

    /// The material for faces without one of their own.
    pub closed spec fn fallback(&self) -> M {
        self.default_material
    }

    /// Where in the list of materials each material name leads.
    pub closed spec fn material_names(&self) -> Map<Seq<char>, usize> {
        self.names.map()
    }

    /// The material that new faces get: its position in the list of materials, or
    /// nothing while none is chosen.
    pub closed spec fn chosen(&self) -> Option<usize> {
        self.current
    }

    /// The material of the face at position `index`: its own where it has one that
    /// the mesh holds, the fallback otherwise.
    pub open spec fn material_of(&self, index: int) -> M {
        match self.face_list()[index].mat {
            Some(i) => if i < self.material_list().len() {
                self.material_list()[i as int]
            } else {
                self.fallback()
            },
            None => self.fallback(),
        }
    }

    /// A mesh without vertices, faces or materials.
    pub fn new(default_material: M) -> (mesh: Self)
        ensures
            mesh.vertex_list().len() == 0,
            mesh.face_list().len() == 0,
            mesh.material_list().len() == 0,
            mesh.material_names() == Map::<Seq<char>, usize>::empty(),
            mesh.chosen() is None,
            mesh.fallback() == default_material,
    {
        Mesh {
            materials: Vec::new(),
            names: NameMap::new(),
            current: None,
            default_material,
            vertices: Vec::new(),
            faces: Vec::new(),
        }
    }

    /// The vertices, in the order in which they came in.
    pub fn vertices(&self) -> (list: &Vec<V>)
        ensures
            list@ == self.vertex_list(),
    {
        &self.vertices
    }

    /// The faces, in the order in which they came in. Every corner is a vertex of
    /// the mesh, and every material that a face names is a material of the mesh.
    pub fn faces(&self) -> (list: &Vec<Face<V>>)
        ensures
            list@ == self.face_list(),
            corners_valid(list@, self.vertex_list().len()),
            materials_valid(list@, self.material_list().len()),
    {
        proof {
            use_type_invariant(self);
        }
        &self.faces
    }

    /// The materials, in the order in which they came in.
    pub fn materials(&self) -> (list: &Vec<M>)
        ensures
            list@ == self.material_list(),
    {
        &self.materials
    }

    /// Appends a vertex.
    pub fn add_vertex(&mut self, vertex: V)
        ensures
            final(self).vertex_list() == old(self).vertex_list().push(vertex),
            final(self).face_list() == old(self).face_list(),
            final(self).material_list() == old(self).material_list(),
            final(self).material_names() == old(self).material_names(),
            final(self).chosen() == old(self).chosen(),
            final(self).fallback() == old(self).fallback(),
    {
        proof {
            use_type_invariant(&*self);
        }
        let mut taken: Vec<V> = Vec::new();
        let mut faces: Vec<Face<V>> = Vec::new();
        core::mem::swap(&mut self.faces, &mut faces);
        core::mem::swap(&mut self.vertices, &mut taken);
        taken.push(vertex);
        core::mem::swap(&mut self.vertices, &mut taken);
        core::mem::swap(&mut self.faces, &mut faces);
    }

    /// Appends a face with the chosen material, if its three corners are vertices
    /// of the mesh. Otherwise the mesh stays as it is, and the error names the
    /// first corner that is not.
    pub fn add_face(&mut self, v0: usize, v1: usize, v2: usize, normal: V) -> (added: Result<
        (),
        MeshError,
    >)
        ensures
            final(self).vertex_list() == old(self).vertex_list(),
            final(self).material_list() == old(self).material_list(),
            final(self).material_names() == old(self).material_names(),
            final(self).chosen() == old(self).chosen(),
            final(self).fallback() == old(self).fallback(),
            match added {
                Ok(_) => {
                    &&& v0 < old(self).vertex_list().len()
                    &&& v1 < old(self).vertex_list().len()
                    &&& v2 < old(self).vertex_list().len()
                    &&& final(self).face_list() == old(self).face_list().push(
                        (Face { v0, v1, v2, mat: old(self).chosen(), normal }),
                    )
                },
                Err(e) => {
                    &&& final(self).face_list() == old(self).face_list()
                    &&& e.corner == if v0 >= old(self).vertex_list().len() {
                        0usize
                    } else if v1 >= old(self).vertex_list().len() {
                        1usize
                    } else {
                        2usize
                    }
                    &&& (v0 >= old(self).vertex_list().len() || v1 >= old(self).vertex_list().len()
                        || v2 >= old(self).vertex_list().len())
                },
            },
    {
        proof {
            use_type_invariant(&*self);
        }
        let count = self.vertices.len();
        if v0 >= count {
            return Err(MeshError { corner: 0 });
        }
        if v1 >= count {
            return Err(MeshError { corner: 1 });
        }
        if v2 >= count {
            return Err(MeshError { corner: 2 });
        }
        let face = Face { v0, v1, v2, mat: self.current, normal };
        let mut taken: Vec<Face<V>> = Vec::new();
        core::mem::swap(&mut self.faces, &mut taken);
        taken.push(face);
        core::mem::swap(&mut self.faces, &mut taken);
        Ok(())
    }

    /// Appends a material and lets `name` lead to it. A name that led elsewhere
    /// leads here from now on; faces that are in the mesh keep their material.
    pub fn add_material(&mut self, name: String, material: M)
        ensures
            final(self).material_list() == old(self).material_list().push(material),
            final(self).material_names() == old(self).material_names().insert(
                name@,
                old(self).material_list().len() as usize,
            ),
            final(self).vertex_list() == old(self).vertex_list(),
            final(self).face_list() == old(self).face_list(),
            final(self).chosen() == old(self).chosen(),
            final(self).fallback() == old(self).fallback(),
    {
        proof {
            use_type_invariant(&*self);
        }
        let index = self.materials.len();
        let mut taken: Vec<M> = Vec::new();
        let mut names: NameMap<usize> = NameMap::new();
        let mut current: Option<usize> = None;
        let mut faces: Vec<Face<V>> = Vec::new();
        core::mem::swap(&mut self.faces, &mut faces);
        core::mem::swap(&mut self.current, &mut current);
        core::mem::swap(&mut self.names, &mut names);
        core::mem::swap(&mut self.materials, &mut taken);
        taken.push(material);
        names.insert(name, index);
        core::mem::swap(&mut self.materials, &mut taken);
        core::mem::swap(&mut self.names, &mut names);
        core::mem::swap(&mut self.current, &mut current);
        core::mem::swap(&mut self.faces, &mut faces);
    }

    /// Chooses the material called `name` for the faces that follow. A name that
    /// leads nowhere leaves them without a material of their own.
    pub fn use_material(&mut self, name: &String)
        ensures
            final(self).chosen() == (if old(self).material_names().contains_key(name@) {
                Some(old(self).material_names()[name@])
            } else {
                None
            }),
            final(self).vertex_list() == old(self).vertex_list(),
            final(self).face_list() == old(self).face_list(),
            final(self).material_list() == old(self).material_list(),
            final(self).material_names() == old(self).material_names(),
            final(self).fallback() == old(self).fallback(),
    {
        proof {
            use_type_invariant(&*self);
        }
        let found = match self.names.get(name) {
            Some(index) => Some(*index),
            None => None,
        };
        self.current = found;
    }

    /// The material of the face at position `index`: its own, or the fallback where
    /// it has none or has one that the mesh does not hold.
    pub fn material_for_face_index(&self, index: usize) -> (material: &M)
        requires
            index < self.face_list().len(),
        ensures
            *material == self.material_of(index as int),
    {
        match self.faces[index].mat {
            Some(i) => {
                if i < self.materials.len() {
                    &self.materials[i]
                } else {
                    &self.default_material
                }
            },
            None => &self.default_material,
        }
    }
}

/// Where the material file `file` that a mesh file at `path` names is found: in
/// the directory of the mesh file.
pub fn library_path(path: &str, file: &str) -> (joined: String)
    ensures
        joined@ == directory(path@) + file@,
{
    let text = chars_of(path);
    let mut to = text.len();
    while to > 0 && text[to - 1] != '/'
        invariant
            to <= text@.len(),
            directory_before(text@, text@.len() as int) == directory_before(text@, to as int),
        decreases to,
    {
        to -= 1;
    }
    let mut joined = string_of(&text, 0, to);
    proof {
        assert(text@.subrange(0, to as int) =~= text@.take(to as int));
        assert(directory(path@) =~= text@.take(to as int));
    }
    joined.append(file);
    joined
}

} // verus!
