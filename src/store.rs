//! The image store: bitmaps addressed by handles, registered once and never
//! changed or removed afterwards.
use crate::bitmap::{Bitmap, BitmapView};
use vstd::prelude::*;

verus! {

/// The identity of a bitmap in an `Images` store.
#[derive(Clone, Copy, Debug, PartialEq, Eq, Structural, Hash)]
pub struct Handle {
    pub id: u64,
}

/// What can go wrong when preparing a sprite.
#[derive(Clone, Copy, Debug, PartialEq, Eq, Structural)]
pub enum ImageError {
    /// The handle names no bitmap of the store.
    ImageNotFound,
    /// The bitmap's pixel format is one that the operation cannot read.
    UnsupportedPixelFormat,
    /// A shadow was asked for a sprite that is not anchored at its centre.
    AnchorMismatch,
}

/// The registered bitmaps; a handle's id is the bitmap's position.
pub struct Images {
    bitmaps: Vec<Bitmap>,
}

impl View for Images {
    type V = Seq<BitmapView>;

    closed spec fn view(&self) -> Seq<BitmapView> {
        self.bitmaps@.map_values(|b: Bitmap| b@)
    }
}

impl Images {
    /// Every registered bitmap is well formed.
    pub open spec fn wf(&self) -> bool {
        forall|i: int| 0 <= i < self@.len() ==> (#[trigger] self@[i]).wf()
    }

    /// An empty store.
    pub fn new() -> (r: Images)
        ensures
            r@ == Seq::<BitmapView>::empty(),
            r.wf(),
    {
        let r = Images { bitmaps: Vec::new() };
        assert(r@ =~= Seq::<BitmapView>::empty());
        r
    }

    /// The number of registered bitmaps.
    pub fn len(&self) -> (r: usize)
        ensures
            r == self@.len(),
    {
        self.bitmaps.len()
    }

    /// Registers a bitmap and hands out its new handle.
    pub fn add(&mut self, bitmap: Bitmap) -> (r: Handle)
        requires
            old(self).wf(),
            bitmap@.wf(),
        ensures
            final(self)@ == old(self)@.push(bitmap@),
            final(self).wf(),
            r.id == old(self)@.len(),
    {
        let id = self.bitmaps.len() as u64;
        self.bitmaps.push(bitmap);
        proof {
            assert(self@ =~= old(self)@.push(bitmap@));
        }
        Handle { id }
    }

    /// The bitmap of a handle, if the handle names one.
    pub fn get(&self, handle: Handle) -> (r: Option<&Bitmap>)
        ensures
            match r {
                Some(b) => handle.id < self@.len() && b@ == self@[handle.id as int],
                None => handle.id >= self@.len(),
            },
    {
        let n = self.bitmaps.len();
        if handle.id < n as u64 {
            Some(&self.bitmaps[handle.id as usize])
        } else {
            None
        }
    }
}

} // verus!
