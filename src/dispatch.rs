use vstd::prelude::*;
use crate::engine::{Engine, EngineView, book_step, update_step, query_step};
use crate::message::{
    Booking, BookingView, Update, Monitor, QueryRequest, QueryRequestView, RequestType,
    parse_booking, parse_update, parse_monitor, parse_query_request,
};
use crate::wire::{DecodeError, parse_byte};

verus! {

/// A decoded request frame.
pub enum RequestView {
    Query(QueryRequestView),
    Book(BookingView),
    Update(Update),
    Monitor(Monitor),
}

/// Decoding a whole request frame: a tag byte, then the message it names.
pub open spec fn parse_request(b: Seq<u8>) -> Result<RequestView, DecodeError> {
    match parse_byte(b, 0) {
        Err(e) => Err(e),
        Ok((tag, p)) => match RequestType::spec_from_byte(tag) {
            None => Err(DecodeError::UnknownTag),
            Some(RequestType::QUERY) => match parse_query_request(b, p) {
                Err(e) => Err(e),
                Ok((q, _)) => Ok(RequestView::Query(q)),
            },
            Some(RequestType::BOOK) => match parse_booking(b, p) {
                Err(e) => Err(e),
                Ok((m, _)) => Ok(RequestView::Book(m)),
            },
            Some(RequestType::UPDATE) => match parse_update(b, p) {
                Err(e) => Err(e),
                Ok((u, _)) => Ok(RequestView::Update(u)),
            },
            Some(RequestType::MONITOR) => match parse_monitor(b, p) {
                Err(e) => Err(e),
                Ok((m, _)) => Ok(RequestView::Monitor(m)),
            },
        },
    }
}

/// What the transport is to do after a request: send `response` back to the sender (if
/// any), send `notification` to every subscriber (if any), and register the sender as a
/// subscriber for `monitor` seconds (if any).
pub struct Reply {
    pub response: Option<Vec<u8>>,
    pub notification: Option<Vec<u8>>,
    pub monitor: Option<u32>,
}

pub struct ReplyView {
    pub response: Option<Seq<u8>>,
    pub notification: Option<Seq<u8>>,
    pub monitor: Option<u32>,
}

pub open spec fn bytes_view(v: Option<Vec<u8>>) -> Option<Seq<u8>> {
    match v {
        Some(x) => Some(x@),
        None => None,
    }
}

impl View for Reply {
    type V = ReplyView;

    open spec fn view(&self) -> ReplyView {
        ReplyView {
            response: bytes_view(self.response),
            notification: bytes_view(self.notification),
            monitor: self.monitor,
        }
    }
}

/// The state after a decoded request and what is sent for it. A successful booking pushes
/// the whole record of its facility to the subscribers.
pub open spec fn dispatch_step(e: EngineView, req: RequestView) -> (EngineView, ReplyView) {
    match req {
        RequestView::Query(q) => (
            e,
            ReplyView {
                response: match query_step(e, q) {
                    Some(resp) => Some(resp.encoding()),
                    None => None,
                },
                notification: None,
                monitor: None,
            },
        ),
        RequestView::Book(b) => {
            let (e2, resp) = book_step(e, b);
            (
                e2,
                ReplyView {
                    response: Some(resp.encoding()),
                    notification: if resp.success {
                        Some(e2.records[e2.facility(b.facility_name)->0])
                    } else {
                        None
                    },
                    monitor: None,
                },
            )
        },
        RequestView::Update(u) => {
            let (e2, resp) = update_step(e, u);
            (e2, ReplyView { response: Some(resp.encoding()), notification: None, monitor: None })
        },
        RequestView::Monitor(m) => (
            e,
            ReplyView { response: None, notification: None, monitor: Some(m.duration) },
        ),
    }
}

impl Engine {
    /// Decodes one request frame, applies it, and says what to send. A frame that does not
    /// decode changes nothing and gets no reply.
    pub fn handle(&mut self, frame: &[u8]) -> (r: Result<Reply, DecodeError>)
        requires
            old(self).wf(),
        ensures
            final(self).wf(),
            match r {
                Ok(reply) => parse_request(frame@) matches Ok(req) && (final(self)@, reply@)
                    == dispatch_step(old(self)@, req),
                Err(e) => parse_request(frame@) == Err::<RequestView, DecodeError>(e)
                    && final(self)@ == old(self)@,
            },
    {
        if frame.len() == 0 {
            return Err(DecodeError::UnexpectedEnd);
        }
        let kind = match RequestType::from_byte(frame[0]) {
            None => return Err(DecodeError::UnknownTag),
            Some(k) => k,
        };
        let mut pos: usize = 1;
        match kind {
            RequestType::QUERY => {
                let req = match QueryRequest::deserialize(frame, &mut pos) {
                    Ok(q) => q,
                    Err(e) => return Err(e),
                };
                let response = match self.query(&req) {
                    Some(resp) => {
                        let mut out: Vec<u8> = Vec::new();
                        resp.serialize(&mut out);
                        Some(out)
                    },
                    None => None,
                };
                Ok(Reply { response, notification: None, monitor: None })
            },
            RequestType::BOOK => {
                let req = match Booking::deserialize(frame, &mut pos) {
                    Ok(b) => b,
                    Err(e) => return Err(e),
                };
                let name = req.facility_name.clone();
                let resp = self.book(req);
                let mut out: Vec<u8> = Vec::new();
                resp.serialize(&mut out);
                let notification = if resp.success {
                    Some(self.record_bytes(&name))
                } else {
                    None
                };
                Ok(Reply { response: Some(out), notification, monitor: None })
            },
            RequestType::UPDATE => {
                let req = match Update::deserialize(frame, &mut pos) {
                    Ok(u) => u,
                    Err(e) => return Err(e),
                };
                let resp = self.update(&req);
                let mut out: Vec<u8> = Vec::new();
                resp.serialize(&mut out);
                Ok(Reply { response: Some(out), notification: None, monitor: None })
            },
            RequestType::MONITOR => {
                let req = match Monitor::deserialize(frame, &mut pos) {
                    Ok(m) => m,
                    Err(e) => return Err(e),
                };
                Ok(Reply { response: None, notification: None, monitor: Some(req.duration) })
            },
        }
    }
}

} // verus!
