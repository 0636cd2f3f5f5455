//! Blocks of vertex data, one attribute each, and their interleaving into
//! the layout in which every vertex has all its attributes side by side.

use vstd::prelude::*;
use vstd::slice::{slice_subrange, slice_to_vec};
use crate::mytypes::MyError;

verus! {

/// The values of one attribute for a run of vertices: `vertex_size`
/// components for each vertex, vertex after vertex.
#[derive(Debug)]
pub struct VertexDataBlock<T> {
    name: String,
    vertex_size: usize,
    data: Vec<T>,
}

impl<T: Copy> VertexDataBlock<T> {
    /// The name of the attribute.
    pub closed spec fn spec_name(&self) -> Seq<char> {
        self.name@
    }

    /// Number of components of one vertex.
    pub closed spec fn spec_vertex_size(&self) -> nat {
        self.vertex_size as nat
    }

    /// All components, vertex after vertex.
    pub closed spec fn spec_data(&self) -> Seq<T> {
        self.data@
    }

    /// A block holds at least one vertex, and only whole vertices.
    pub open spec fn wf(&self) -> bool {
        &&& self.spec_vertex_size() > 0
        &&& self.spec_data().len() > 0
        &&& self.spec_data().len() % self.spec_vertex_size() == 0
    }

    /// Number of vertices in the block.
    pub open spec fn spec_num_of_vertices(&self) -> nat {
        self.spec_data().len() / self.spec_vertex_size()
    }

    /// The components of the vertex `v`.
    pub open spec fn vertex(&self, v: int) -> Seq<T> {
        self.spec_data().subrange(v * self.spec_vertex_size(), (v + 1) * self.spec_vertex_size())
    }

    /// A block of the given components. It is turned down when a vertex
    /// would have no components, and when the data is empty or does not
    /// divide into whole vertices.
    pub fn new(name: &str, vertex_size: usize, data: &[T]) -> (r: Result<Self, MyError>)
        ensures
            match r {
                Ok(block) => {
                    &&& vertex_size != 0
                    &&& data@.len() != 0
                    &&& data@.len() % (vertex_size as nat) == 0
                    &&& block.wf()
                    &&& block.spec_name() == name@
                    &&& block.spec_vertex_size() == vertex_size
                    &&& block.spec_data() == data@
                },
                Err(e) => if vertex_size == 0 {
                    e == MyError::ZeroVertexSize
                } else {
                    e == MyError::InvalidDataSize && (data@.len() == 0 || data@.len() % (
                    vertex_size as nat) != 0)
                },
            },
    {
        if vertex_size == 0 {
            return Err(MyError::ZeroVertexSize);
        }
        if data.len() == 0 || data.len() % vertex_size != 0 {
            return Err(MyError::InvalidDataSize);
        }
        Ok(VertexDataBlock { name: name.to_owned(), vertex_size, data: slice_to_vec(data) })
    }

    pub fn name(&self) -> (name: &str)
        ensures
            name@ == self.spec_name(),
    {
        self.name.as_str()
    }

    pub fn vertex_size(&self) -> (n: usize)
        ensures
            n == self.spec_vertex_size(),
    {
        self.vertex_size
    }

    pub fn data(&self) -> (data: &[T])
        ensures
            data@ == self.spec_data(),
    {
        self.data.as_slice()
    }

    pub fn num_of_vertices(&self) -> (n: usize)
        requires
            self.wf(),
        ensures
            n == self.spec_num_of_vertices(),
    {
        self.data.len() / self.vertex_size
    }

    /// The `vertex_size` components that start at the index `start`;
    /// turned down when fewer than that are left there.
    pub fn get_slice(&self, start: usize) -> (r: Result<&[T], MyError>)
        ensures
            match r {
                Ok(slice) => start + self.spec_vertex_size() <= self.spec_data().len() && slice@
                    == self.spec_data().subrange(
                    start as int,
                    start + self.spec_vertex_size(),
                ),
                Err(e) => e == MyError::InvalidStart && start + self.spec_vertex_size()
                    > self.spec_data().len(),
            },
    {
        if start > self.data.len() || self.vertex_size > self.data.len() - start {
            return Err(MyError::InvalidStart);
        }
        Ok(slice_subrange(self.data.as_slice(), start, start + self.vertex_size))
    }
}

/// The components of the vertex `v` in the first `upto` blocks, block
/// after block.
pub open spec fn vertex_row<T: Copy>(blocks: Seq<VertexDataBlock<T>>, v: int, upto: int) -> Seq<T>
    decreases upto,
{
    if upto <= 0 {
        Seq::empty()
    } else {
        vertex_row(blocks, v, upto - 1) + blocks[upto - 1].vertex(v)
    }
}

/// The first `n` vertices, each with its components from every block.
pub open spec fn interleaved<T: Copy>(blocks: Seq<VertexDataBlock<T>>, n: int) -> Seq<T>
    decreases n,
{
    if n <= 0 {
        Seq::empty()
    } else {
        interleaved(blocks, n - 1) + vertex_row(blocks, n - 1, blocks.len() as int)
    }
}

/// All blocks hold as many vertices as the first.
pub open spec fn same_vertex_count<T: Copy>(blocks: Seq<VertexDataBlock<T>>) -> bool {
    forall|i: int|
        0 <= i < blocks.len() ==> (#[trigger] blocks[i]).spec_num_of_vertices()
            == blocks[0].spec_num_of_vertices()
}

/// A vertex of a block lies inside the block's data.
proof fn lemma_vertex_in_data(len: int, size: int, v: int)
    requires
        size > 0,
        len % size == 0,
        0 <= v < len / size,
    ensures
        0 <= v * size,
        (v + 1) * size <= len,
        (v + 1) * size == v * size + size,
{
    vstd::arithmetic::div_mod::lemma_fundamental_div_mod(len, size);
    assert(0 <= v * size && (v + 1) * size <= (len / size) * size && (v + 1) * size == v * size
        + size) by (nonlinear_arith)
        requires
            size > 0,
            0 <= v < len / size,
    ;
    assert(size * (len / size) == (len / size) * size) by (nonlinear_arith);
}

/// Interleaves the blocks: the result holds, for each vertex in turn, the
/// components of that vertex from every block, in the order of the blocks.
/// An empty list is turned down, and so are blocks that do not all hold the
/// same number of vertices.
pub fn interleave_vertex_data<T: Copy>(blocks: &[VertexDataBlock<T>]) -> (r: Result<
    Vec<T>,
    MyError,
>)
    requires
        forall|i: int| 0 <= i < blocks@.len() ==> (#[trigger] blocks@[i]).wf(),
    ensures
        match r {
            Ok(data) => {
                &&& blocks@.len() > 0
                &&& same_vertex_count(blocks@)
                &&& data@ == interleaved(blocks@, blocks@[0].spec_num_of_vertices() as int)
            },
            Err(e) => if blocks@.len() == 0 {
                e == MyError::NoBlocks
            } else {
                e == MyError::VertexCountMismatch && !same_vertex_count(blocks@)
            },
        },
{
    if blocks.len() == 0 {
        return Err(MyError::NoBlocks);
    }
    let num_of_vertices = blocks[0].num_of_vertices();
    let mut i: usize = 1;
    while i < blocks.len()
        invariant
            1 <= i <= blocks@.len(),
            forall|k: int| 0 <= k < blocks@.len() ==> (#[trigger] blocks@[k]).wf(),
            num_of_vertices == blocks@[0].spec_num_of_vertices(),
            forall|k: int|
                0 <= k < i ==> (#[trigger] blocks@[k]).spec_num_of_vertices() == num_of_vertices,
        decreases blocks@.len() - i,
    {
        if blocks[i].num_of_vertices() != num_of_vertices {
            return Err(MyError::VertexCountMismatch);
        }
        i += 1;
    }
    let mut result: Vec<T> = Vec::new();
    let mut v: usize = 0;
    while v < num_of_vertices
        invariant
            v <= num_of_vertices,
            blocks@.len() > 0,
            forall|k: int| 0 <= k < blocks@.len() ==> (#[trigger] blocks@[k]).wf(),
            forall|k: int|
                0 <= k < blocks@.len() ==> (#[trigger] blocks@[k]).spec_num_of_vertices()
                    == num_of_vertices,
            result@ == interleaved(blocks@, v as int),
        decreases num_of_vertices - v,
    {
        let ghost before_row = result@;
        let mut b: usize = 0;
        while b < blocks.len()
            invariant
                v < num_of_vertices,
                b <= blocks@.len(),
                forall|k: int| 0 <= k < blocks@.len() ==> (#[trigger] blocks@[k]).wf(),
                forall|k: int|
                    0 <= k < blocks@.len() ==> (#[trigger] blocks@[k]).spec_num_of_vertices()
                        == num_of_vertices,
                result@ == before_row + vertex_row(blocks@, v as int, b as int),
            decreases blocks@.len() - b,
        {
            let block = &blocks[b];
            let size = block.vertex_size();
            let data = block.data();
            let len = data.len();
            proof {
                lemma_vertex_in_data(len as int, size as int, v as int);
                assert(v * size + size <= len);
            }
            let start: usize = v * size;
            let ghost before_vertex = result@;
            let mut k: usize = 0;
            while k < size
                invariant
                    k <= size,
                    start + size <= data@.len() <= usize::MAX,
                    result@ == before_vertex + data@.subrange(start as int, start + k),
                decreases size - k,
            {
                result.push(data[start + k]);
                proof {
                    assert(data@.subrange(start as int, start + k + 1) =~= data@.subrange(
                        start as int,
                        start + k,
                    ).push(data@[start + k]));
                }
                k += 1;
            }
            proof {
                assert(data@.subrange(start as int, start + size) == block.vertex(v as int));
                assert(result@ =~= before_row + vertex_row(blocks@, v as int, b + 1));
            }
            b += 1;
        }
        proof {
            assert(before_row + vertex_row(blocks@, v as int, blocks@.len() as int)
                == interleaved(blocks@, v + 1));
        }
        v += 1;
    }
    Ok(result)
}

} // verus!
