//! The decisions of the resolution flow. The flow itself asks the network
//! twice; what it asks for and what it makes of each answer is decided here.

use vstd::prelude::*;
use crate::error::ResolveError;
use crate::extract::{all_qualities, escape_free_urls, extract_all_qualities, marker_free_urls};
use crate::link::{extract_douyin_url, extract_video_id, link_in, video_id_in};
use crate::pattern::text_of;
use crate::quality::{distinct_urls, ranked, views, QualityOption};

verus! {

/// How far the resolution of one input has come.
#[derive(Clone, Copy, Debug, PartialEq, Eq, Structural)]
pub enum State {
    /// Nothing was pasted yet.
    Start,
    /// A link was found; the answer to it is awaited.
    LinkExtracted,
    /// The redirect location is known; its page is awaited.
    RedirectResolved,
    /// The page was fetched and gave the quality options. A fetched page is
    /// read within the step that receives it, so that no state stands between
    /// the fetch and the options.
    QualitiesReady,
    /// The resolution ended with an error.
    Failed,
}

/// What happened outside.
#[derive(Debug)]
pub enum Event {
    /// Text was pasted.
    Pasted(String),
    /// The short link was answered, with the location it redirects to, if it
    /// named one.
    Redirected(Option<String>),
    /// The page at the location was read as text.
    PageFetched(String),
    /// A request failed, or its answer was no text.
    RequestFailed,
}

/// What is to be done outside next.
#[derive(Debug)]
pub enum Action {
    /// Ask for the link without following its redirect, and read the
    /// location of the answer.
    RequestRedirect(String),
    /// Ask for the page at the location and read its body. The content
    /// number, where the location names one, is for the record only.
    RequestPage { location: String, video_id: Option<String> },
    /// Hand the quality options on.
    Deliver(Vec<QualityOption>),
    /// Report the error; the input is done with.
    Fail(ResolveError),
    /// Nothing: the event does not belong to the state.
    Ignore,
}

/// The event is one that the state waits for.
pub open spec fn awaited(state: State, event: Event) -> bool {
    match (state, event) {
        (State::Start, Event::Pasted(_)) => true,
        (State::LinkExtracted, Event::Redirected(_)) => true,
        (State::LinkExtracted, Event::RequestFailed) => true,
        (State::RedirectResolved, Event::PageFetched(_)) => true,
        (State::RedirectResolved, Event::RequestFailed) => true,
        _ => false,
    }
}

/// The state that follows when an awaited event arrives.
pub open spec fn next_state(state: State, event: Event) -> State {
    match (state, event) {
        (State::Start, Event::Pasted(text)) => if link_in(text@) is Some {
            State::LinkExtracted
        } else {
            State::Failed
        },
        (State::LinkExtracted, Event::Redirected(Some(_))) => State::RedirectResolved,
        (State::RedirectResolved, Event::PageFetched(body)) => if all_qualities(body@) is Some {
            State::QualitiesReady
        } else {
            State::Failed
        },
        _ => State::Failed,
    }
}

/// The error with which an awaited event ends the resolution, if it does.
pub open spec fn failure(state: State, event: Event) -> Option<ResolveError> {
    match (state, event) {
        (State::Start, Event::Pasted(text)) => if link_in(text@) is Some {
            None
        } else {
            Some(ResolveError::NoLinkFound)
        },
        (State::LinkExtracted, Event::Redirected(Some(_))) => None,
        (State::LinkExtracted, Event::Redirected(None)) => Some(ResolveError::NoRedirect),
        (State::RedirectResolved, Event::PageFetched(body)) => if all_qualities(body@) is Some {
            None
        } else {
            Some(ResolveError::NoVideoUrl)
        },
        _ => Some(ResolveError::FetchFailed),
    }
}

/// The action fits the event: it asks for what the event calls for, or hands
/// on what the event gave.
pub open spec fn action_fits(state: State, event: Event, action: Action) -> bool {
    match (state, event) {
        (State::Start, Event::Pasted(text)) => action matches Action::RequestRedirect(link)
            && link_in(text@) == Some(link@),
        (State::LinkExtracted, Event::Redirected(Some(target))) => action matches Action::RequestPage {
            location,
            video_id,
        } && location@ == target@ && text_of(video_id) == video_id_in(target@),
        (State::RedirectResolved, Event::PageFetched(body)) => action matches Action::Deliver(list)
            && all_qualities(body@) == Some(views(list@)) && list@.len() > 0 && ranked(
            views(list@),
        ) && distinct_urls(views(list@)) && escape_free_urls(views(list@)) && marker_free_urls(
            views(list@),
        ),
        _ => false,
    }
}

/// Decides what follows an event. An event that the state does not wait for
/// changes nothing. An awaited one either ends the resolution with its error,
/// or moves it one state on with the action that fits.
pub fn step(state: State, event: Event) -> (r: (State, Action))
    ensures
        !awaited(state, event) ==> r.0 == state && r.1 is Ignore,
        awaited(state, event) ==> r.0 == next_state(state, event),
        awaited(state, event) ==> match failure(state, event) {
            Some(e) => r.0 == State::Failed && r.1 == Action::Fail(e),
            None => action_fits(state, event, r.1),
        },
{
    match (state, event) {
        (State::Start, Event::Pasted(text)) => match extract_douyin_url(text.as_str()) {
            Ok(link) => (State::LinkExtracted, Action::RequestRedirect(link)),
            Err(e) => (State::Failed, Action::Fail(e)),
        },
        (State::LinkExtracted, Event::Redirected(Some(target))) => {
            let video_id = extract_video_id(target.as_str());
            (State::RedirectResolved, Action::RequestPage { location: target, video_id })
        },
        (State::LinkExtracted, Event::Redirected(None)) => (
            State::Failed,
            Action::Fail(ResolveError::NoRedirect),
        ),
        (State::LinkExtracted, Event::RequestFailed) => (
            State::Failed,
            Action::Fail(ResolveError::FetchFailed),
        ),
        (State::RedirectResolved, Event::PageFetched(body)) => match extract_all_qualities(
            body.as_str(),
        ) {
            Ok(list) => (State::QualitiesReady, Action::Deliver(list)),
            Err(e) => (State::Failed, Action::Fail(e)),
        },
        (State::RedirectResolved, Event::RequestFailed) => (
            State::Failed,
            Action::Fail(ResolveError::FetchFailed),
        ),
        (other, _) => (other, Action::Ignore),
    }
}

} // verus!
