use vstd::prelude::*;

verus! {

/// The cache slot of one image file.
pub enum ImageState<I> {
    /// Nothing decoded and no load in flight.
    Unloaded,
    /// A background load holding `ticket` is in flight.
    Loading { ticket: u64 },
    /// The decoded image.
    Loaded(I),
    /// The load failed with this message.
    Failed(String),
}

/// What a render pass should do with an image this frame.
#[derive(PartialEq, Eq, Structural, Debug, Clone, Copy)]
pub enum DisplayRequest {
    /// Start a background load of the file; its result carries `ticket`.
    StartLoad { ticket: u64 },
    /// Draw a placeholder: a load is in flight.
    Placeholder,
    /// Draw the decoded image.
    Ready,
    /// Draw the error message in place of the image.
    Error,
}

/// One image file with at most one decoded in-memory form.
///
/// Every load is tagged with a fresh ticket; a result whose ticket is not the
/// one of the load in flight is stale and is dropped, so an eviction during a
/// load can never be undone by that load.
pub struct LazyImage<I> {
    pub path: String,
    pub state: ImageState<I>,
    /// The number of loads started so far; the latest ticket handed out.
    pub tickets_issued: u64,
}

impl<I> LazyImage<I> {
    pub open spec fn wf(&self) -> bool {
        self.state matches ImageState::Loading { ticket } ==> ticket == self.tickets_issued
    }

    /// Whether a decoded image is held in memory.
    pub open spec fn is_resident(&self) -> bool {
        self.state is Loaded
    }

    pub open spec fn is_unloaded(&self) -> bool {
        self.state is Unloaded
    }

    /// A fresh, unloaded image of the file at `path`.
    pub open spec fn new_spec(path: String) -> Self {
        LazyImage { path, state: ImageState::Unloaded, tickets_issued: 0 }
    }

    pub fn new(path: String) -> (r: Self)
        ensures
            r == Self::new_spec(path),
            r.wf(),
    {
        LazyImage { path, state: ImageState::Unloaded, tickets_issued: 0 }
    }

    /// Asks for the image to be shown. An unloaded image starts one load and
    /// shows a placeholder until it completes; this never waits.
    pub fn request_display(&mut self) -> (r: DisplayRequest)
        requires
            old(self).wf(),
        ensures
            final(self).wf(),
            final(self).path == old(self).path,
            match old(self).state {
                ImageState::Unloaded => if old(self).tickets_issued < u64::MAX {
                    &&& r == DisplayRequest::StartLoad { ticket: (old(self).tickets_issued + 1) as u64 }
                    &&& final(self).tickets_issued == old(self).tickets_issued + 1
                    &&& final(self).state == ImageState::<I>::Loading { ticket: final(self).tickets_issued }
                } else {
                    &&& r == DisplayRequest::Placeholder
                    &&& *final(self) == *old(self)
                },
                ImageState::Loading { .. } => r == DisplayRequest::Placeholder && *final(self) == *old(self),
                ImageState::Loaded(_) => r == DisplayRequest::Ready && *final(self) == *old(self),
                ImageState::Failed(_) => r == DisplayRequest::Error && *final(self) == *old(self),
            },
    {
        match self.state {
            ImageState::Unloaded => {
                if self.tickets_issued < u64::MAX {
                    self.tickets_issued = self.tickets_issued + 1;
                    self.state = ImageState::Loading { ticket: self.tickets_issued };
                    DisplayRequest::StartLoad { ticket: self.tickets_issued }
                } else {
                    DisplayRequest::Placeholder
                }
            },
            ImageState::Loading { .. } => DisplayRequest::Placeholder,
            ImageState::Loaded(_) => DisplayRequest::Ready,
            ImageState::Failed(_) => DisplayRequest::Error,
        }
    }

    /// Stores the result of the load that holds `ticket`. A result of any
    /// other load, or one arriving after an eviction, is dropped.
    pub fn complete_load(&mut self, ticket: u64, result: Result<I, String>) -> (accepted: bool)
        requires
            old(self).wf(),
        ensures
            final(self).wf(),
            accepted == (old(self).state == ImageState::<I>::Loading { ticket }),
            accepted ==> final(self).state == match result {
                Ok(img) => ImageState::Loaded(img),
                Err(msg) => ImageState::<I>::Failed(msg),
            },
            accepted ==> final(self).path == old(self).path && final(self).tickets_issued
                == old(self).tickets_issued,
            !accepted ==> *final(self) == *old(self),
    {
        let in_flight = match self.state {
            ImageState::Loading { ticket: t } => t == ticket,
            _ => false,
        };
        if in_flight {
            self.state = match result {
                Ok(img) => ImageState::Loaded(img),
                Err(msg) => ImageState::Failed(msg),
            };
        }
        in_flight
    }

    /// Drops whatever is decoded or in flight; the path stays, so the image
    /// can be loaded again. On an unloaded image this changes nothing.
    pub fn clear(&mut self)
        requires
            old(self).wf(),
        ensures
            final(self).wf(),
            final(self).state is Unloaded,
            final(self).path == old(self).path,
            final(self).tickets_issued == old(self).tickets_issued,
            old(self).state is Unloaded ==> *final(self) == *old(self),
    {
        self.state = ImageState::Unloaded;
    }

    /// The decoded image, if one is held.
    pub fn image(&self) -> (r: Option<&I>)
        ensures
            match self.state {
                ImageState::Loaded(img) => r == Some(&img),
                _ => r is None,
            },
    {
        match &self.state {
            ImageState::Loaded(img) => Some(img),
            _ => None,
        }
    }

    /// The message of a failed load, if the last load failed.
    pub fn error(&self) -> (r: Option<&String>)
        ensures
            match self.state {
                ImageState::Failed(msg) => r == Some(&msg),
                _ => r is None,
            },
    {
        match &self.state {
            ImageState::Failed(msg) => Some(msg),
            _ => None,
        }
    }
}

} // verus!
