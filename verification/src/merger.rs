//! The merge engine: from the images of one directory to their composite.
//!
//! Images that are mostly taller than wide are set side by side, at the height
//! of the tallest; any other set is stacked, at the width of the widest. Each
//! image is brought to the shared side first, and the images keep the order in
//! which they were given.

use vstd::prelude::*;
use crate::codec::{load_raster, loaded, LoadError, LoadFault};
use crate::compose::{all_of_height, all_of_width, canvas_fits, heights_sum, place_side_by_side, place_stacked, side_by_side, stacked, views, widths_sum};
use crate::error::MergeError;
use crate::raster::{Raster, RasterData};
use crate::resize::{can_resample, fits_at_height, fits_at_width, resized_to_height, resized_to_width};
use crate::scale::scaled_dimension;

pub use crate::job::merge_images_in_directory;
pub use crate::naming::is_merged_file;
pub use crate::resize::{resize_to_height, resize_to_width};
pub use crate::timestamp::find_latest_creation_date;

verus! {

/// How the images of a composite are laid out.
#[derive(Debug, Clone, Copy, PartialEq, Eq, Structural)]
pub enum MergeOrientation {
    /// Side by side, left to right, at one height.
    Horizontal,
    /// Stacked, top to bottom, at one width.
    Vertical,
}

/// A decoded image with its size and its orientation.
#[derive(Debug)]
pub struct ImageInfo {
    pub image: Raster,
    pub width: u32,
    pub height: u32,
    pub is_vertical: bool,
}

impl ImageInfo {
    /// The size is the image's size, and the image counts as vertical where it
    /// is taller than wide; a square one does not.
    pub open spec fn wf(&self) -> bool {
        &&& self.image@.wf()
        &&& self.width == self.image@.width
        &&& self.height == self.image@.height
        &&& self.is_vertical == (self.height > self.width)
    }

    /// The image with its size and orientation.
    pub fn new(image: Raster) -> (info: ImageInfo)
        requires
            image@.wf(),
        ensures
            info.wf(),
            info.image == image,
            info.is_vertical == (image@.height > image@.width),
    {
        let width = image.width();
        let height = image.height();
        ImageInfo { image, width, height, is_vertical: height > width }
    }
}

/// Decodes the content `bytes` of the file at `path` and takes the image's
/// size and orientation.
pub fn load_image_info(path: &str, bytes: &Vec<u8>) -> (r: Result<ImageInfo, LoadError>)
    ensures
        match r {
            Ok(info) => loaded(path@, bytes@) == Ok::<RasterData, LoadFault>(info.image@)
                && info.wf(),
            Err(e) => loaded(path@, bytes@) == Err::<RasterData, LoadFault>(e@),
        },
{
    match load_raster(path, bytes) {
        Ok(image) => Ok(ImageInfo::new(image)),
        Err(e) => Err(e),
    }
}

/// The images of the infos.
pub open spec fn images_of(infos: Seq<ImageInfo>) -> Seq<RasterData> {
    infos.map_values(|info: ImageInfo| info.image@)
}

/// Every info is well formed.
pub open spec fn all_wf(infos: Seq<ImageInfo>) -> bool {
    forall|i: int| 0 <= i < infos.len() ==> (#[trigger] infos[i]).wf()
}

/// How many of the infos are marked vertical.
pub open spec fn vertical_count(infos: Seq<ImageInfo>) -> nat
    decreases infos.len(),
{
    if infos.len() == 0 {
        0
    } else {
        vertical_count(infos.drop_last()) + if infos.last().is_vertical {
            1nat
        } else {
            0nat
        }
    }
}

/// The layout for a set of images: side by side where more of them are
/// vertical than not, stacked otherwise, also where they are as many.
pub open spec fn layout_of(infos: Seq<ImageInfo>) -> MergeOrientation {
    if vertical_count(infos) > infos.len() - vertical_count(infos) {
        MergeOrientation::Horizontal
    } else {
        MergeOrientation::Vertical
    }
}

/// The layout for the images: `Horizontal` where the vertical ones are the
/// strict majority, `Vertical` otherwise.
pub fn determine_merge_orientation(image_infos: &Vec<ImageInfo>) -> (r: MergeOrientation)
    ensures
        r == layout_of(image_infos@),
        r == MergeOrientation::Horizontal <==> 2 * vertical_count(image_infos@)
            > image_infos@.len(),
{
    let mut vertical: usize = 0;
    let mut i: usize = 0;
    assert(image_infos@.take(0) =~= Seq::<ImageInfo>::empty());
    while i < image_infos.len()
        invariant
            i <= image_infos.len(),
            vertical == vertical_count(image_infos@.take(i as int)),
            vertical <= i,
        decreases image_infos.len() - i,
    {
        assert(image_infos@.take(i + 1).drop_last() =~= image_infos@.take(i as int));
        if image_infos[i].is_vertical {
            vertical = vertical + 1;
        }
        i = i + 1;
    }
    assert(image_infos@.take(i as int) =~= image_infos@);
    let horizontal: usize = image_infos.len() - vertical;
    if vertical > horizontal {
        MergeOrientation::Horizontal
    } else {
        MergeOrientation::Vertical
    }
}

/// The height of the tallest image, 0 where there is none.
pub open spec fn max_height(images: Seq<RasterData>) -> nat
    decreases images.len(),
{
    if images.len() == 0 {
        0
    } else if images.last().height > max_height(images.drop_last()) {
        images.last().height
    } else {
        max_height(images.drop_last())
    }
}

/// The width of the widest image, 0 where there is none.
pub open spec fn max_width(images: Seq<RasterData>) -> nat
    decreases images.len(),
{
    if images.len() == 0 {
        0
    } else if images.last().width > max_width(images.drop_last()) {
        images.last().width
    } else {
        max_width(images.drop_last())
    }
}

/// The images, each brought to the height `target`.
pub open spec fn tiles_at_height(images: Seq<RasterData>, target: u32) -> Seq<RasterData> {
    images.map_values(|image: RasterData| resized_to_height(image, target))
}

/// The images, each brought to the width `target`.
pub open spec fn tiles_at_width(images: Seq<RasterData>, target: u32) -> Seq<RasterData> {
    images.map_values(|image: RasterData| resized_to_width(image, target))
}

/// Whether the composite of the images side by side can be had: every image
/// can be brought to the height of the tallest, and a canvas can hold them.
pub open spec fn horizontal_fits(images: Seq<RasterData>) -> bool {
    let target = max_height(images) as u32;
    &&& forall|i: int| 0 <= i < images.len() ==> fits_at_height(#[trigger] images[i], target)
    &&& canvas_fits(widths_sum(tiles_at_height(images, target)), target as nat)
}

/// Whether the composite of the images stacked can be had.
pub open spec fn vertical_fits(images: Seq<RasterData>) -> bool {
    let target = max_width(images) as u32;
    &&& forall|i: int| 0 <= i < images.len() ==> fits_at_width(#[trigger] images[i], target)
    &&& canvas_fits(target as nat, heights_sum(tiles_at_width(images, target)))
}

/// The composite of the images side by side: each brought to the height of
/// the tallest, then set left to right in the order given.
pub open spec fn merged_horizontally(images: Seq<RasterData>) -> RasterData {
    let target = max_height(images) as u32;
    side_by_side(tiles_at_height(images, target), target as nat)
}

/// The composite of the images stacked: each brought to the width of the
/// widest, then set top to bottom in the order given.
pub open spec fn merged_vertically(images: Seq<RasterData>) -> RasterData {
    let target = max_width(images) as u32;
    stacked(tiles_at_width(images, target), target as nat)
}

fn tallest(image_infos: &Vec<ImageInfo>) -> (target: u32)
    requires
        all_wf(image_infos@),
    ensures
        target == max_height(images_of(image_infos@)),
{
    let ghost images = images_of(image_infos@);
    let mut target: u32 = 0;
    let mut i: usize = 0;
    assert(images.take(0) =~= Seq::<RasterData>::empty());
    while i < image_infos.len()
        invariant
            i <= image_infos.len(),
            all_wf(image_infos@),
            images == images_of(image_infos@),
            target == max_height(images.take(i as int)),
        decreases image_infos.len() - i,
    {
        assert(images.take(i + 1).drop_last() =~= images.take(i as int));
        assert(image_infos@[i as int].wf());
        if image_infos[i].height > target {
            target = image_infos[i].height;
        }
        i = i + 1;
    }
    assert(images.take(i as int) =~= images);
    target
}

fn widest(image_infos: &Vec<ImageInfo>) -> (target: u32)
    requires
        all_wf(image_infos@),
    ensures
        target == max_width(images_of(image_infos@)),
{
    let ghost images = images_of(image_infos@);
    let mut target: u32 = 0;
    let mut i: usize = 0;
    assert(images.take(0) =~= Seq::<RasterData>::empty());
    while i < image_infos.len()
        invariant
            i <= image_infos.len(),
            all_wf(image_infos@),
            images == images_of(image_infos@),
            target == max_width(images.take(i as int)),
        decreases image_infos.len() - i,
    {
        assert(images.take(i + 1).drop_last() =~= images.take(i as int));
        assert(image_infos@[i as int].wf());
        if image_infos[i].width > target {
            target = image_infos[i].width;
        }
        i = i + 1;
    }
    assert(images.take(i as int) =~= images);
    target
}

/// Merges the images side by side: each is brought to the height of the
/// tallest, and they are set left to right in the order given.
///
/// Fails with `CanvasTooLarge` where an image cannot be brought to that height
/// or no canvas can hold the composite.
pub fn merge_horizontally(image_infos: &Vec<ImageInfo>) -> (r: Result<Raster, MergeError>)
    requires
        image_infos.len() > 0,
        all_wf(image_infos@),
    ensures
        r is Ok <==> horizontal_fits(images_of(image_infos@)),
        r matches Ok(canvas) ==> canvas@ == merged_horizontally(images_of(image_infos@))
            && canvas@.wf(),
        r matches Err(e) ==> e == MergeError::CanvasTooLarge,
{
    let ghost images = images_of(image_infos@);
    let target_height = tallest(image_infos);
    let mut tiles: Vec<Raster> = Vec::new();
    let mut i: usize = 0;
    while i < image_infos.len()
        invariant
            i <= image_infos.len(),
            all_wf(image_infos@),
            images == images_of(image_infos@),
            target_height == max_height(images),
            views(tiles@) =~= tiles_at_height(images, target_height).take(i as int),
            forall|j: int| 0 <= j < i ==> fits_at_height(#[trigger] images[j], target_height),
            all_of_height(views(tiles@), target_height as nat),
        decreases image_infos.len() - i,
    {
        let info = &image_infos[i];
        assert(info.wf());
        assert(images[i as int] == info.image@);
        let fits = info.image.height() == target_height || can_resample(
            info.image.width(),
            scaled_dimension(target_height, info.image.width(), info.image.height()),
            target_height,
        );
        if !fits {
            return Err(MergeError::CanvasTooLarge);
        }
        let tile = resize_to_height(&info.image, target_height);
        let ghost before = views(tiles@);
        tiles.push(tile);
        assert(views(tiles@) =~= before.push(tile@));
        i = i + 1;
    }
    assert(tiles_at_height(images, target_height).take(i as int) =~= tiles_at_height(
        images,
        target_height,
    ));
    place_side_by_side(&tiles, target_height)
}

/// Merges the images stacked: each is brought to the width of the widest, and
/// they are set top to bottom in the order given.
///
/// Fails with `CanvasTooLarge` where an image cannot be brought to that width
/// or no canvas can hold the composite.
pub fn merge_vertically(image_infos: &Vec<ImageInfo>) -> (r: Result<Raster, MergeError>)
    requires
        image_infos.len() > 0,
        all_wf(image_infos@),
    ensures
        r is Ok <==> vertical_fits(images_of(image_infos@)),
        r matches Ok(canvas) ==> canvas@ == merged_vertically(images_of(image_infos@))
            && canvas@.wf(),
        r matches Err(e) ==> e == MergeError::CanvasTooLarge,
{
    let ghost images = images_of(image_infos@);
    let target_width = widest(image_infos);
    let mut tiles: Vec<Raster> = Vec::new();
    let mut i: usize = 0;
    while i < image_infos.len()
        invariant
            i <= image_infos.len(),
            all_wf(image_infos@),
            images == images_of(image_infos@),
            target_width == max_width(images),
            views(tiles@) =~= tiles_at_width(images, target_width).take(i as int),
            forall|j: int| 0 <= j < i ==> fits_at_width(#[trigger] images[j], target_width),
            all_of_width(views(tiles@), target_width as nat),
        decreases image_infos.len() - i,
    {
        let info = &image_infos[i];
        assert(info.wf());
        assert(images[i as int] == info.image@);
        let fits = info.image.width() == target_width || can_resample(
            info.image.width(),
            target_width,
            scaled_dimension(target_width, info.image.height(), info.image.width()),
        );
        if !fits {
            return Err(MergeError::CanvasTooLarge);
        }
        let tile = resize_to_width(&info.image, target_width);
        let ghost before = views(tiles@);
        tiles.push(tile);
        assert(views(tiles@) =~= before.push(tile@));
        i = i + 1;
    }
    assert(tiles_at_width(images, target_width).take(i as int) =~= tiles_at_width(
        images,
        target_width,
    ));
    place_stacked(&tiles, target_width)
}

/// How many of the images are taller than wide.
pub open spec fn tall_count(images: Seq<RasterData>) -> nat
    decreases images.len(),
{
    if images.len() == 0 {
        0
    } else {
        tall_count(images.drop_last()) + if images.last().height > images.last().width {
            1nat
        } else {
            0nat
        }
    }
}

/// The layout for the images: side by side where more of them are taller than
/// wide than are not, stacked otherwise, also where they are as many.
pub open spec fn layout_for(images: Seq<RasterData>) -> MergeOrientation {
    if tall_count(images) > images.len() - tall_count(images) {
        MergeOrientation::Horizontal
    } else {
        MergeOrientation::Vertical
    }
}

/// The composite of the images in the layout that suits them.
pub open spec fn composite_of(images: Seq<RasterData>) -> Result<RasterData, MergeError> {
    if images.len() == 0 {
        Err(MergeError::NoValidImages)
    } else {
        match layout_for(images) {
            MergeOrientation::Horizontal => if horizontal_fits(images) {
                Ok(merged_horizontally(images))
            } else {
                Err(MergeError::CanvasTooLarge)
            },
            MergeOrientation::Vertical => if vertical_fits(images) {
                Ok(merged_vertically(images))
            } else {
                Err(MergeError::CanvasTooLarge)
            },
        }
    }
}

/// Well formed infos are marked vertical where their images are taller than
/// wide.
pub proof fn lemma_vertical_count_is_tall_count(infos: Seq<ImageInfo>)
    requires
        all_wf(infos),
    ensures
        vertical_count(infos) == tall_count(images_of(infos)),
        layout_of(infos) == layout_for(images_of(infos)),
    decreases infos.len(),
{
    if infos.len() > 0 {
        assert(images_of(infos).drop_last() =~= images_of(infos.drop_last()));
        assert(infos.last().wf());
        assert forall|i: int| 0 <= i < infos.drop_last().len() implies (#[trigger] infos.drop_last()[i]).wf() by {
            assert(infos[i].wf());
        }
        lemma_vertical_count_is_tall_count(infos.drop_last());
    }
}

/// Merges the images in the layout that suits them.
///
/// Fails with `NoValidImages` where there is no image, and with
/// `CanvasTooLarge` where the composite cannot be had.
pub fn merge_images(image_infos: &Vec<ImageInfo>) -> (r: Result<Raster, MergeError>)
    requires
        all_wf(image_infos@),
    ensures
        match r {
            Ok(canvas) => composite_of(images_of(image_infos@)) == Ok::<RasterData, MergeError>(
                canvas@,
            ) && canvas@.wf(),
            Err(e) => composite_of(images_of(image_infos@)) == Err::<RasterData, MergeError>(e),
        },
{
    if image_infos.len() == 0 {
        return Err(MergeError::NoValidImages);
    }
    proof {
        lemma_vertical_count_is_tall_count(image_infos@);
    }
    match determine_merge_orientation(image_infos) {
        MergeOrientation::Horizontal => merge_horizontally(image_infos),
        MergeOrientation::Vertical => merge_vertically(image_infos),
    }
}

} // verus!
