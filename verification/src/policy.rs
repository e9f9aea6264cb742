//! The size policy that an image must pass before it is repaired.

use vstd::prelude::*;

verus! {

/// An image with a side longer than this counts as large and is repaired
/// only with the user's consent.
pub const LARGE_IMAGE_SIDE: u32 = 4096;

/// An image with a side longer than this is never repaired.
pub const MAX_IMAGE_SIDE: u32 = 65536;

/// The user's answer to the question whether large images are to be
/// repaired, asked once and kept for all images that follow.
#[derive(Clone, Copy, Debug, PartialEq, Eq, Structural)]
pub struct LargeImagePolicy {
    pub allow_large_images: bool,
    pub user_has_decided: bool,
}

/// Why an image is not repaired. Either reason makes the image a failed one
/// in the tallies of a batch, not a skipped one: skipped is kept for images
/// that were looked at and found to have no border pixels.
#[derive(Clone, Copy, Debug, PartialEq, Eq, Structural)]
pub enum PolicyRejection {
    /// The image is large and the user declined to repair large images.
    LargeImagesDeclined,
    /// A side of the image is longer than `MAX_IMAGE_SIDE`.
    ImageTooLarge { width: u32, height: u32 },
}

/// What the policy says of an image of a given size.
#[derive(Clone, Copy, Debug, PartialEq, Eq, Structural)]
pub enum Admission {
    /// The image may be repaired.
    Accepted,
    /// The image is large and the user has not been asked yet.
    NeedsDecision,
    /// The image is not to be repaired.
    Rejected(PolicyRejection),
}

/// A side of the image is longer than `LARGE_IMAGE_SIDE`.
pub open spec fn is_large(width: u32, height: u32) -> bool {
    width > LARGE_IMAGE_SIDE || height > LARGE_IMAGE_SIDE
}

/// A side of the image is longer than `MAX_IMAGE_SIDE`.
pub open spec fn exceeds_ceiling(width: u32, height: u32) -> bool {
    width > MAX_IMAGE_SIDE || height > MAX_IMAGE_SIDE
}

impl LargeImagePolicy {
    /// What the policy answers for an image of the given size: yes for one
    /// that is not large, the user's answer for a large one, and nothing
    /// while the user has not been asked.
    pub open spec fn answer(self, width: u32, height: u32) -> Option<bool> {
        if !is_large(width, height) {
            Some(true)
        } else if self.user_has_decided {
            Some(self.allow_large_images)
        } else {
            None
        }
    }

    /// What the policy says of an image of the given size. The user's
    /// consent is looked at before the ceiling.
    pub open spec fn admission(self, width: u32, height: u32) -> Admission {
        match self.answer(width, height) {
            None => Admission::NeedsDecision,
            Some(false) => Admission::Rejected(PolicyRejection::LargeImagesDeclined),
            Some(true) => if exceeds_ceiling(width, height) {
                Admission::Rejected(PolicyRejection::ImageTooLarge { width, height })
            } else {
                Admission::Accepted
            },
        }
    }

    /// A policy under which the user has not been asked yet.
    pub fn new() -> (policy: LargeImagePolicy)
        ensures
            policy == (LargeImagePolicy { allow_large_images: false, user_has_decided: false }),
    {
        LargeImagePolicy { allow_large_images: false, user_has_decided: false }
    }

    /// Whether an image of the given size is to be repaired, or `None` if
    /// it is large and the user has to be asked first.
    pub fn should_process_large_image(&self, width: u32, height: u32) -> (answer: Option<bool>)
        ensures
            answer == self.answer(width, height),
    {
        if width <= LARGE_IMAGE_SIDE && height <= LARGE_IMAGE_SIDE {
            Some(true)
        } else if self.user_has_decided {
            Some(self.allow_large_images)
        } else {
            None
        }
    }

    /// Keeps the user's answer for all images that follow.
    pub fn record_decision(&mut self, allow: bool)
        ensures
            *final(self) == (LargeImagePolicy { allow_large_images: allow, user_has_decided: true }),
    {
        self.allow_large_images = allow;
        self.user_has_decided = true;
    }

    /// Holds an image of the given size against the policy: a large image
    /// needs the user's consent, and no image may exceed the ceiling.
    pub fn validate_image(&self, width: u32, height: u32) -> (admission: Admission)
        ensures
            admission == self.admission(width, height),
    {
        match self.should_process_large_image(width, height) {
            None => Admission::NeedsDecision,
            Some(false) => Admission::Rejected(PolicyRejection::LargeImagesDeclined),
            Some(true) => {
                if width > MAX_IMAGE_SIDE || height > MAX_IMAGE_SIDE {
                    Admission::Rejected(PolicyRejection::ImageTooLarge { width, height })
                } else {
                    Admission::Accepted
                }
            },
        }
    }
}

} // verus!
