//! Sprite sheets: named frames cut out of one texture.
use vstd::prelude::*;

use vstd::string::*;

use crate::render::TextureHandle;
use crate::text::str_equals;

verus! {

/// A rectangle of a sprite sheet, in pixels.
#[derive(Clone, Copy, Debug, PartialEq, Eq, Structural)]
pub struct Rect {
    pub x: u32,
    pub y: u32,
    pub w: u32,
    pub h: u32,
}

/// One frame: where it is on the sheet and how long it shows, in milliseconds.
#[derive(Clone, Copy, Debug, PartialEq, Eq, Structural)]
pub struct SpriteFrame {
    pub frame: Rect,
    pub duration: u32,
}

/// The size of a sprite sheet's image, in pixels.
#[derive(Clone, Copy, Debug, PartialEq, Eq, Structural)]
pub struct SpriteSheetSize {
    pub w: u32,
    pub h: u32,
}

/// A sprite sheet's image: its size and file name.
#[derive(Clone, Debug)]
pub struct SpriteSheetMeta {
    pub size: SpriteSheetSize,
    pub image: String,
}

/// A sprite sheet as its description file gives it: named frames and the image.
pub struct SpriteSheetData {
    pub frames: Vec<(String, SpriteFrame)>,
    pub meta: SpriteSheetMeta,
}

/// A sprite sheet whose image has been uploaded as a texture.
pub struct SpriteSheet {
    frames: Vec<(String, SpriteFrame)>,
    meta: SpriteSheetMeta,
    pub texture_handle: TextureHandle,
}

/// Where sprites are placed: in the world (16 pixels per unit) or on screen (in pixels).
#[derive(Clone, Copy, Debug, PartialEq, Eq, Structural)]
pub enum SpriteSpace {
    World,
    Screen,
}

/// Marks an entity as a sprite.
#[derive(Clone, Copy, Debug, PartialEq, Eq, Structural)]
pub struct Sprite;

/// The frame named `name` in a list of named frames: the first one with that name.
pub open spec fn frame_named(frames: Seq<(String, SpriteFrame)>, name: Seq<char>) -> Option<SpriteFrame>
    decreases frames.len(),
{
    if frames.len() == 0 {
        None
    } else if frames[0].0@ == name {
        Some(frames[0].1)
    } else {
        frame_named(frames.drop_first(), name)
    }
}

impl SpriteSheet {
    pub closed spec fn frames_view(&self) -> Seq<(String, SpriteFrame)> {
        self.frames@
    }

    pub closed spec fn texture_view(&self) -> TextureHandle {
        self.texture_handle
    }

    pub closed spec fn size_view(&self) -> SpriteSheetSize {
        self.meta.size
    }

    pub closed spec fn image_view(&self) -> Seq<char> {
        self.meta.image@
    }

    /// The sheet for parsed data whose image was uploaded as `texture_handle`.
    pub fn new(data: SpriteSheetData, texture_handle: TextureHandle) -> (r: SpriteSheet)
        ensures
            r.frames_view() == data.frames@,
            r.size_view() == data.meta.size,
            r.image_view() == data.meta.image@,
            r.texture_view() == texture_handle,
    {
        SpriteSheet { frames: data.frames, meta: data.meta, texture_handle }
    }

    /// The frame called `name`, if the sheet has one.
    pub fn frame(&self, name: &str) -> (r: Option<SpriteFrame>)
        ensures
            r == frame_named(self.frames_view(), name@),
    {
        let mut i: usize = 0;
        assert(self.frames@.subrange(0, self.frames@.len() as int) =~= self.frames@);
        while i < self.frames.len()
            invariant
                i <= self.frames@.len(),
                frame_named(self.frames@.subrange(i as int, self.frames@.len() as int), name@)
                    == frame_named(self.frames@, name@),
            decreases self.frames.len() - i,
        {
            let ghost rest = self.frames@.subrange(i as int, self.frames@.len() as int);
            assert(rest.drop_first() =~= self.frames@.subrange(i + 1, self.frames@.len() as int));
            if str_equals(self.frames[i].0.as_str(), name) {
                assert(rest[0] == self.frames@[i as int]);
                return Some(self.frames[i].1);
            }
            i = i + 1;
        }
        None
    }

    /// The size of the sheet's image.
    pub fn size(&self) -> (r: SpriteSheetSize)
        ensures
            r == self.size_view(),
    {
        self.meta.size
    }
}

} // verus!
