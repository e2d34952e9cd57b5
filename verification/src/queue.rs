//! The play queue: a list of playable items and the place of the one that
//! is current.

use crate::models::{item_views, PlayableItem, PlayableItemView, Track, TrackView};
use vstd::prelude::*;

verus! {

/// The place after `current` in a queue of `len` items: the next item, and
/// the first one after the last or where nothing is current.
pub open spec fn place_after(current: Option<int>, len: int) -> int {
    match current {
        Some(i) => if i + 1 < len {
            i + 1
        } else {
            0
        },
        None => 0,
    }
}

/// The place before `current` in a queue of `len` items: the item before,
/// and the last one before the first or where nothing is current.
pub open spec fn place_before(current: Option<int>, len: int) -> int {
    match current {
        Some(i) => if i > 0 {
            i - 1
        } else {
            len - 1
        },
        None => len - 1,
    }
}

/// A queue of playable items. The current place, where there is one, lies
/// within the queue.
#[derive(Debug)]
pub struct Queue {
    tracks: Vec<PlayableItem>,
    current_index: Option<usize>,
}

impl Queue {
    /// The items of the queue, in order.
    pub closed spec fn items(&self) -> Seq<PlayableItemView> {
        item_views(self.tracks@)
    }

    /// The place of the current item, where there is one.
    pub closed spec fn current(&self) -> Option<int> {
        match self.current_index {
            Some(i) => Some(i as int),
            None => None,
        }
    }

    /// The current place lies within the queue.
    pub open spec fn wf(&self) -> bool {
        match self.current() {
            Some(i) => 0 <= i < self.items().len(),
            None => true,
        }
    }

    /// The track at the current place, where there is one.
    pub open spec fn current_view(&self) -> Option<TrackView> {
        match self.current() {
            Some(i) => Some(self.items()[i].track),
            None => None,
        }
    }

    /// A queue of the given items, with nothing current.
    pub fn new(tracks: Vec<PlayableItem>) -> (r: Queue)
        ensures
            r.wf(),
            r.items() == item_views(tracks@),
            r.current() is None,
    {
        Queue { tracks, current_index: None }
    }

    /// Moves to the next item and returns its track; after the last item
    /// comes the first. An empty queue stays as it is and gives nothing.
    pub fn next(&mut self) -> (r: Option<Track>)
        requires
            old(self).wf(),
        ensures
            final(self).wf(),
            final(self).items() == old(self).items(),
            old(self).items().len() == 0 ==> r is None,
            old(self).items().len() == 0 ==> final(self).current() == old(self).current(),
            old(self).items().len() > 0 ==> final(self).current() == Some(
                place_after(old(self).current(), old(self).items().len() as int),
            ),
            old(self).items().len() > 0 ==> (r matches Some(track) && final(self).current_view()
                == Some(track@)),
    {
        if self.tracks.len() == 0 {
            return None;
        }
        let place: usize = match self.current_index {
            Some(i) => if i + 1 < self.tracks.len() {
                i + 1
            } else {
                0
            },
            None => 0,
        };
        self.current_index = Some(place);
        Some(self.tracks[place].track.clone())
    }

    /// Moves to the item before and returns its track; before the first
    /// item comes the last. An empty queue stays as it is and gives nothing.
    pub fn previous(&mut self) -> (r: Option<Track>)
        requires
            old(self).wf(),
        ensures
            final(self).wf(),
            final(self).items() == old(self).items(),
            old(self).items().len() == 0 ==> r is None,
            old(self).items().len() == 0 ==> final(self).current() == old(self).current(),
            old(self).items().len() > 0 ==> final(self).current() == Some(
                place_before(old(self).current(), old(self).items().len() as int),
            ),
            old(self).items().len() > 0 ==> (r matches Some(track) && final(self).current_view()
                == Some(track@)),
    {
        if self.tracks.len() == 0 {
            return None;
        }
        let place: usize = match self.current_index {
            Some(i) => if i > 0 {
                i - 1
            } else {
                self.tracks.len() - 1
            },
            None => self.tracks.len() - 1,
        };
        self.current_index = Some(place);
        Some(self.tracks[place].track.clone())
    }

    /// The track at the current place, where there is one.
    pub fn current_track(&self) -> (r: Option<&Track>)
        requires
            self.wf(),
        ensures
            match r {
                Some(track) => Some(track@) == self.current_view(),
                None => self.current_view() is None,
            },
    {
        match self.current_index {
            Some(i) => Some(&self.tracks[i].track),
            None => None,
        }
    }

    /// The items of the queue, in order.
    pub fn get_tracks(&self) -> (r: &Vec<PlayableItem>)
        ensures
            item_views(r@) == self.items(),
    {
        &self.tracks
    }
}

} // verus!
