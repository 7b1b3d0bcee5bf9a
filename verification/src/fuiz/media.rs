//! Pictures shown with a question or as an answer.
use vstd::prelude::*;
use vstd::string::StrSliceExecFns;

use crate::settings::{verdict, CorkboardSettings, Invalid};

verus! {

/// A picture.
#[derive(Debug)]
pub enum Image {
    /// One that is kept on the corkboard.
    Corkboard {
        /// What it is kept under.
        id: String,
        /// What it shows, in words.
        alt: String,
    },
}

/// Something to look at.
#[derive(Debug)]
pub enum Media {
    /// A picture.
    Image(Image),
}

impl Clone for Image {
    fn clone(&self) -> (copy: Self)
        ensures
            copy == *self,
    {
        match self {
            Image::Corkboard { id, alt } => Image::Corkboard { id: id.clone(), alt: alt.clone() },
        }
    }
}

impl Clone for Media {
    fn clone(&self) -> (copy: Self)
        ensures
            copy == *self,
    {
        match self {
            Media::Image(image) => Media::Image(image.clone()),
        }
    }
}

impl Media {
    /// What is wrong with it: its identifier has the length of those on the corkboard, and the words
    /// are not too many.
    pub open spec fn problem(&self, settings: CorkboardSettings) -> Option<Invalid> {
        match self {
            Media::Image(Image::Corkboard { id, alt }) => if id@.len() != settings.id_length || alt@.len()
                > settings.max_alt_length {
                Some(Invalid::Length)
            } else {
                None
            },
        }
    }

    /// Tells what is wrong, if anything.
    pub fn validate_with(&self, settings: &CorkboardSettings) -> (result: Result<(), Invalid>)
        ensures
            result == verdict(self.problem(*settings)),
    {
        match self {
            Media::Image(Image::Corkboard { id, alt }) => if id.as_str().unicode_len() != settings.id_length
                || alt.as_str().unicode_len() > settings.max_alt_length {
                Err(Invalid::Length)
            } else {
                Ok(())
            },
        }
    }
}

/// A copy of the picture, if there is one.
pub fn copy_media(media: &Option<Media>) -> (copy: Option<Media>)
    ensures
        copy == *media,
{
    match media {
        Some(media) => Some(media.clone()),
        None => None,
    }
}

} // verus!
