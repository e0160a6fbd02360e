//! Tile materials: what a room is drawn with.
//!
//! A material is a handle to a record that the tile catalogue supplies: a name, the
//! address of an image and the size of one tile. Handles are cheap to clone and are
//! compared by the record they lead to, not by what it holds.
use crate::shared::{same_allocation, share};
use std::rc::Rc;
use vstd::prelude::*;
use vstd::string::StringExecFns;

verus! {

/// A material as contracts see it: what the catalogue says of it.
pub struct MaterialData {
    pub name: Seq<char>,
    pub href: Seq<char>,
    pub size: usize,
}

/// The record behind a material.
#[derive(Debug)]
pub struct MaterialInner {
    name: String,
    href: String,
    size: usize,
}

impl View for MaterialInner {
    type V = MaterialData;

    closed spec fn view(&self) -> MaterialData {
        MaterialData { name: self.name@, href: self.href@, size: self.size }
    }
}

impl MaterialInner {
    /// The record of the material called `name`, drawn from the image at `href` in
    /// tiles of `size` by `size`.
    pub fn new(name: String, href: String, size: usize) -> (inner: Self)
        ensures
            inner@ == (MaterialData { name: name@, href: href@, size }),
    {
        MaterialInner { name, href, size }
    }
}

/// A handle to a material's record.
#[derive(Debug)]
pub struct Material(Rc<MaterialInner>);

impl View for Material {
    type V = MaterialData;

    closed spec fn view(&self) -> MaterialData {
        self.0@
    }
}

impl Material {
    /// A handle to `inner`.
    pub fn new(inner: MaterialInner) -> (material: Self)
        ensures
            material@ == inner@,
    {
        Material(Rc::new(inner))
    }

    /// The name under which the material's pattern is defined: `tile`, then the
    /// material's name.
    pub fn name(&self) -> (name: String)
        ensures
            name@ == "tile"@ + self@.name,
    {
        String::from_str("tile").concat(self.0.name.as_str())
    }

    /// The reference by which a shape is filled with the material's pattern: `url(#`,
    /// the pattern's name, `)`.
    pub fn url_reference(&self) -> (reference: String)
        ensures
            reference@ == "url(#tile"@ + self@.name + ")"@,
    {
        String::from_str("url(#tile").concat(self.0.name.as_str()).concat(")")
    }

    /// The address of the material's image.
    pub fn href(&self) -> (href: String)
        ensures
            href@ == self@.href,
    {
        self.0.href.clone()
    }

    /// The size of one tile.
    pub fn size(&self) -> (size: usize)
        ensures
            size == self@.size,
    {
        self.0.size
    }

    /// The material as a person reads it: its name.
    pub fn label(&self) -> (label: String)
        ensures
            label@ == self@.name,
    {
        self.0.name.clone()
    }

    /// Whether the two handles lead to one record.
    ///
    /// What the records hold is not compared. Two materials that this function calls
    /// the same are equal in every respect.
    pub fn same(&self, other: &Self) -> (same: bool)
        ensures
            same ==> *self == *other,
    {
        same_allocation(&self.0, &other.0)
    }
}

impl Clone for Material {
    /// This very material, through one more handle to its record.
    fn clone(&self) -> (material: Self)
        ensures
            material == *self,
    {
        Material(share(&self.0))
    }
}

impl PartialEq for Material {
    /// As [`Material::same`]: whether the two handles lead to one record.
    fn eq(&self, other: &Self) -> (same: bool)
        ensures
            same ==> *self == *other,
    {
        self.same(other)
    }
}

impl vstd::std_specs::cmp::PartialEqSpecImpl for Material {
    /// `==` on materials compares records by where they are, which no value shows: its
    /// answer is not a function of the two materials.
    open spec fn obeys_eq_spec() -> bool {
        false
    }

    open spec fn eq_spec(&self, other: &Self) -> bool {
        *self == *other
    }
}

/// The materials of a catalogue, in its order, behind a shared handle.
#[derive(Debug)]
pub struct Materials(Rc<Vec<Material>>);

impl View for Materials {
    type V = Seq<Material>;

    closed spec fn view(&self) -> Seq<Material> {
        self.0@
    }
}

impl Materials {
    /// The catalogue that holds `materials`, in their order.
    pub fn new(materials: Vec<Material>) -> (catalogue: Self)
        ensures
            catalogue@ == materials@,
    {
        Materials(Rc::new(materials))
    }

    /// The materials in order, each a handle of its own to the same record.
    pub fn as_vec(&self) -> (materials: Vec<Material>)
        ensures
            materials@ == self@,
    {
        let materials = (*self.0).clone();
        assert(materials@ =~= self@);
        materials
    }

    /// The materials in order, borrowed from the catalogue.
    pub fn as_slice(&self) -> (materials: &[Material])
        ensures
            materials@ == self@,
    {
        self.0.as_slice()
    }

    /// Whether the catalogue holds no material.
    pub fn is_empty(&self) -> (empty: bool)
        ensures
            empty == (self@.len() == 0),
    {
        self.0.len() == 0
    }
}

impl Clone for Materials {
    /// This very catalogue, through one more handle.
    fn clone(&self) -> (catalogue: Self)
        ensures
            catalogue == *self,
    {
        Materials(share(&self.0))
    }
}

impl Default for Materials {
    /// The catalogue without materials.
    fn default() -> (catalogue: Self)
        ensures
            catalogue@ == Seq::<Material>::empty(),
    {
        Materials(Rc::new(Vec::new()))
    }
}

} // verus!
