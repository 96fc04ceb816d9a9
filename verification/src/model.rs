use vstd::prelude::*;

verus! {

/// A point in space.  Each coordinate is the raw little-endian bit
/// pattern of the single-precision value the file carries.  Keeping the
/// bits, rather than a machine float, lets every decoder state exactly
/// which bytes of the input each coordinate came from; turning a bit
/// pattern into a machine float is left to the caller.
#[derive(Clone, Copy, Debug, PartialEq, Eq, Structural)]
pub struct Vertex {
    pub x: u32,
    pub y: u32,
    pub z: u32,
}

impl Vertex {
    pub fn new(x: u32, y: u32, z: u32) -> (r: Vertex)
        ensures
            r == (Vertex { x, y, z }),
    {
        Vertex { x, y, z }
    }

    pub fn get_x(&self) -> (r: u32)
        ensures
            r == self.x,
    {
        self.x
    }

    pub fn get_y(&self) -> (r: u32)
        ensures
            r == self.y,
    {
        self.y
    }

    pub fn get_z(&self) -> (r: u32)
        ensures
            r == self.z,
    {
        self.z
    }
}

/// One facet of the mesh: a normal and its three corners, in the winding
/// order the source file gave them.
#[derive(Clone, Copy, Debug, PartialEq, Eq)]
pub struct Triangle {
    pub normal: Vertex,
    pub vertex: [Vertex; 3],
}

impl Triangle {
    pub fn new(normal: Vertex, corners: [Vertex; 3]) -> (r: Triangle)
        ensures
            r.normal == normal,
            r.vertex == corners,
    {
        Triangle { normal, vertex: corners }
    }

    pub fn vertices(&self) -> (r: &[Vertex; 3])
        ensures
            r == &self.vertex,
    {
        &self.vertex
    }

    pub fn get_normal(&self) -> (r: Vertex)
        ensures
            r == self.normal,
    {
        self.normal
    }
}

/// The in-memory mesh: the triangles of one file, in file order.  A
/// decoder builds it by appending; afterwards the only mutation offered
/// is replacing the normals wholesale, which leaves every corner as it
/// was.
#[derive(Debug)]
pub struct Model {
    triangles: Vec<Triangle>,
}

impl View for Model {
    type V = Seq<Triangle>;

    closed spec fn view(&self) -> Seq<Triangle> {
        self.triangles@
    }
}

impl Model {
    pub fn new() -> (r: Model)
        ensures
            r@ == Seq::<Triangle>::empty(),
    {
        Model { triangles: Vec::new() }
    }

    pub fn push(&mut self, t: Triangle)
        ensures
            final(self)@ == old(self)@.push(t),
    {
        self.triangles.push(t);
    }

    pub fn triangle_count(&self) -> (r: usize)
        ensures
            r == self@.len(),
    {
        self.triangles.len()
    }

    pub fn get_triangle(&self, i: usize) -> (r: Triangle)
        requires
            i < self@.len(),
        ensures
            r == self@[i as int],
    {
        self.triangles[i]
    }

    pub fn iter(&self) -> (r: TriangleIterator)
        ensures
            r.index == 0,
            r.model == self,
    {
        TriangleIterator { index: 0, model: self }
    }

    /// Replace every triangle's normal with the value supplied for it,
    /// leaving all corners untouched.  The caller computes the values;
    /// pairing this with a cross-product pass gives the usual
    /// normal-recomputation step.
    pub fn set_normals(&mut self, normals: &Vec<Vertex>)
        requires
            normals@.len() == old(self)@.len(),
        ensures
            final(self)@.len() == old(self)@.len(),
            forall|i: int|
                0 <= i < old(self)@.len() ==> (#[trigger] final(self)@[i]) == (Triangle {
                    normal: normals@[i],
                    vertex: old(self)@[i].vertex,
                }),
    {
        let n = self.triangles.len();
        let mut out: Vec<Triangle> = Vec::new();
        let mut i: usize = 0;
        while i < n
            invariant
                i <= n,
                n == self.triangles@.len(),
                normals@.len() == n,
                self.triangles@ == old(self).triangles@,
                out@.len() == i,
                forall|j: int|
                    0 <= j < i ==> (#[trigger] out@[j]) == (Triangle {
                        normal: normals@[j],
                        vertex: self.triangles@[j].vertex,
                    }),
            decreases n - i,
        {
            let t = self.triangles[i];
            out.push(Triangle { normal: normals[i], vertex: t.vertex });
            i = i + 1;
        }
        self.triangles = out;
    }
}

/// A forward cursor over a model's triangles, in insertion order.  It
/// only reads the model; a fresh one starts again from the front.
pub struct TriangleIterator<'a> {
    pub index: usize,
    pub model: &'a Model,
}

impl<'a> TriangleIterator<'a> {
    /// Hand out the next triangle, or nothing once the end is reached;
    /// after that every further call keeps yielding nothing.
    pub fn next(&mut self) -> (r: Option<Triangle>)
        ensures
            old(self).index < old(self).model@.len() ==> r == Some(
                old(self).model@[old(self).index as int],
            ) && final(self).index == old(self).index + 1,
            old(self).index >= old(self).model@.len() ==> r == None::<Triangle>
                && final(self).index == old(self).index,
            final(self).model == old(self).model,
    {
        if self.index < self.model.triangle_count() {
            let v = self.model.get_triangle(self.index);
            self.index = self.index + 1;
            Some(v)
        } else {
            None
        }
    }
}

/// What one pass of normal recomputation does to a sequence of
/// triangles, for any rule `f` that derives a normal from the three
/// corners alone: every normal is replaced by `f` of the corners, and
/// the corners stay as they were.
pub open spec fn recompute_spec(
    tris: Seq<Triangle>,
    f: spec_fn(Vertex, Vertex, Vertex) -> Vertex,
) -> Seq<Triangle> {
    tris.map_values(
        |t: Triangle| Triangle { normal: f(t.vertex[0], t.vertex[1], t.vertex[2]), vertex: t.vertex },
    )
}

/// Connects [`Model::set_normals`] to one recomputation pass: a caller
/// that derives every supplied normal from the triangle's own corners
/// by one fixed rule leaves the mesh exactly as the pass describes.
pub proof fn lemma_recompute_pass(
    before: Seq<Triangle>,
    after: Seq<Triangle>,
    normals: Seq<Vertex>,
    f: spec_fn(Vertex, Vertex, Vertex) -> Vertex,
)
    requires
        normals.len() == before.len(),
        forall|i: int|
            0 <= i < before.len() ==> #[trigger] normals[i] == f(
                before[i].vertex[0],
                before[i].vertex[1],
                before[i].vertex[2],
            ),
        after.len() == before.len(),
        forall|i: int|
            0 <= i < before.len() ==> (#[trigger] after[i]) == (Triangle {
                normal: normals[i],
                vertex: before[i].vertex,
            }),
    ensures
        after == recompute_spec(before, f),
{
    assert(after =~= recompute_spec(before, f));
}

/// Recomputing normals twice gives the same mesh as recomputing once,
/// for any rule that reads only the three corners: the first pass keeps
/// every corner, so the second pass derives the very same normals.
pub proof fn lemma_recompute_idempotent(
    tris: Seq<Triangle>,
    f: spec_fn(Vertex, Vertex, Vertex) -> Vertex,
)
    ensures
        recompute_spec(recompute_spec(tris, f), f) == recompute_spec(tris, f),
{
    assert(recompute_spec(recompute_spec(tris, f), f) =~= recompute_spec(tris, f));
}

} // verus!
