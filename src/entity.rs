use vstd::prelude::*;
use crate::tile::Texture;

verus! {

/// What an entity is.
#[derive(Clone, Copy, Debug, PartialEq, Eq, Structural, Hash)]
pub enum EntityKind {
    Player,
    Human,
    Cake,
    BucketOfGoop,
    HumanWithGoop,
    CakeWithGoop,
}

/// A movable object on the grid.
#[derive(Clone, Copy, Debug)]
pub struct Entity {
    pub pos: [isize; 2],
    pub kind: EntityKind,
    pub is_sliding: bool,
}

/// The kind an entity takes after touching goop: humans and cakes get
/// covered, every other kind stays as it is.
pub open spec fn goopified(k: EntityKind) -> EntityKind {
    match k {
        EntityKind::Cake => EntityKind::CakeWithGoop,
        EntityKind::Human => EntityKind::HumanWithGoop,
        _ => k,
    }
}

/// The texture that draws an entity of kind `k`.
pub open spec fn kind_texture(k: EntityKind) -> Texture {
    match k {
        EntityKind::Player => Texture::Player,
        EntityKind::Human => Texture::Human,
        EntityKind::Cake => Texture::Cake,
        EntityKind::BucketOfGoop => Texture::BucketOfGoop,
        EntityKind::HumanWithGoop => Texture::HumanWithGoop,
        EntityKind::CakeWithGoop => Texture::CakeWithGoop,
    }
}

impl Entity {
    /// A resting entity at `(x, y)`.
    pub fn new(x: isize, y: isize, kind: EntityKind) -> (r: Self)
        ensures
            r.pos[0] == x,
            r.pos[1] == y,
            r.kind == kind,
            !r.is_sliding,
    {
        Entity { pos: [x, y], kind, is_sliding: false }
    }

    /// Covers the entity in goop.
    pub fn goopify(&mut self)
        ensures
            final(self).kind == goopified(old(self).kind),
            final(self).pos == old(self).pos,
            final(self).is_sliding == old(self).is_sliding,
    {
        match self.kind {
            EntityKind::Cake => self.kind = EntityKind::CakeWithGoop,
            EntityKind::Human => self.kind = EntityKind::HumanWithGoop,
            _ => (),
        }
    }
}

impl EntityKind {
    /// The texture that draws this kind.
    pub fn get_texture(&self) -> (r: Texture)
        ensures
            r == kind_texture(*self),
    {
        match self {
            EntityKind::Player => Texture::Player,
            EntityKind::Human => Texture::Human,
            EntityKind::Cake => Texture::Cake,
            EntityKind::BucketOfGoop => Texture::BucketOfGoop,
            EntityKind::HumanWithGoop => Texture::HumanWithGoop,
            EntityKind::CakeWithGoop => Texture::CakeWithGoop,
        }
    }
}

} // verus!
