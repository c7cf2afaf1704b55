//! The query filter: a struct of optional constraints plus the "effective
//! value" accessors that interpret absent fields.
//!
//! An empty string, a zero status code, or a non-positive page value all mean
//! "no constraint on this dimension"; the accessors centralise that rule so
//! no caller reinterprets sentinels on its own.

use crate::reservation_status::{status_display, status_of_code, ReservationStatus};
use crate::timestamp::Timestamp;
use vstd::prelude::*;

verus! {

/// Which reservations to retrieve.
///
/// Every field is optional: an empty `user_id` or `resource_id`, a `status`
/// code of `0` (`Unknown`), an absent window bound, and a non-positive
/// `page` or `page_size` each mean "no constraint" rather than a literal
/// match. `desc` orders results by window start descending when set.
#[derive(Debug, PartialEq, Eq)]
pub struct ReservationQuery {
    pub user_id: String,
    pub resource_id: String,
    pub start: Option<Timestamp>,
    pub end: Option<Timestamp>,
    pub status: i32,
    pub page: i64,
    pub desc: bool,
    pub page_size: i64,
}

impl Clone for ReservationQuery {
    /// A field-for-field copy.
    fn clone(&self) -> (r: Self)
        ensures
            r == *self,
    {
        ReservationQuery {
            user_id: self.user_id.clone(),
            resource_id: self.resource_id.clone(),
            start: self.start,
            end: self.end,
            status: self.status,
            page: self.page,
            desc: self.desc,
            page_size: self.page_size,
        }
    }
}

impl ReservationQuery {
    /// The status filter as the system of record's predicate wants it:
    /// `None` when no status constraint applies, else the display string.
    pub fn get_status(&self) -> (r: Option<String>)
        requires
            self.status != 0 ==> status_of_code(self.status) is Some,
        ensures
            self.status == 0 ==> r is None,
            self.status != 0 ==> r is Some && r.unwrap()@ == status_display(
                status_of_code(self.status).unwrap(),
            ),
    {
        if self.status == 0 {
            None
        } else {
            Some(ReservationStatus::from_i32(self.status).unwrap().to_display_string())
        }
    }

    /// The user constraint: `None` for the empty string.
    pub fn effective_user_id(&self) -> (r: Option<String>)
        ensures
            self.user_id@.len() == 0 ==> r is None,
            self.user_id@.len() > 0 ==> r == Some(self.user_id),
    {
        if self.user_id.as_str().is_empty() {
            None
        } else {
            Some(self.user_id.clone())
        }
    }

    /// The resource constraint: `None` for the empty string.
    pub fn effective_resource_id(&self) -> (r: Option<String>)
        ensures
            self.resource_id@.len() == 0 ==> r is None,
            self.resource_id@.len() > 0 ==> r == Some(self.resource_id),
    {
        if self.resource_id.as_str().is_empty() {
            None
        } else {
            Some(self.resource_id.clone())
        }
    }

    /// The window constraint: `None` unless both bounds are present, in
    /// which case the caller treats the absence as "match any time".
    pub fn effective_window(&self) -> (r: Option<crate::window::Window>)
        ensures
            self.start is Some && self.end is Some ==> r == Some(
                crate::window::Window { start: self.start.unwrap(), end: self.end.unwrap() },
            ),
            !(self.start is Some && self.end is Some) ==> r is None,
    {
        match (self.start, self.end) {
            (Some(start), Some(end)) => Some(crate::window::Window { start, end }),
            _ => None,
        }
    }

    /// The requested page: `None` for a non-positive value, which defers to
    /// the default of the system of record.
    pub fn effective_page(&self) -> (r: Option<i64>)
        ensures
            self.page <= 0 ==> r is None,
            self.page > 0 ==> r == Some(self.page),
    {
        if self.page > 0 {
            Some(self.page)
        } else {
            None
        }
    }

    /// The requested page size: `None` for a non-positive value, which
    /// defers to the default of the system of record.
    pub fn effective_page_size(&self) -> (r: Option<i64>)
        ensures
            self.page_size <= 0 ==> r is None,
            self.page_size > 0 ==> r == Some(self.page_size),
    {
        if self.page_size > 0 {
            Some(self.page_size)
        } else {
            None
        }
    }
}

/// Incremental construction of a [`ReservationQuery`]; every field starts
/// unconstrained.
#[derive(Debug)]
pub struct ReservationQueryBuilder {
    pub query: ReservationQuery,
}

impl Default for ReservationQueryBuilder {
    /// A builder with every dimension unconstrained.
    fn default() -> (b: ReservationQueryBuilder)
        ensures
            b.query.user_id@.len() == 0,
            b.query.resource_id@.len() == 0,
            b.query.start is None,
            b.query.end is None,
            b.query.status == 0,
            b.query.page == 0,
            b.query.desc == false,
            b.query.page_size == 0,
    {
        ReservationQueryBuilder {
            query: ReservationQuery {
                user_id: String::new(),
                resource_id: String::new(),
                start: None,
                end: None,
                status: 0,
                page: 0,
                desc: false,
                page_size: 0,
            },
        }
    }
}

impl ReservationQueryBuilder {
    /// Constrain the owner.
    pub fn user_id(self, user_id: &str) -> (b: Self)
        ensures
            b.query == (ReservationQuery { user_id: b.query.user_id, ..self.query }),
            b.query.user_id@ == user_id@,
    {
        let query = ReservationQuery { user_id: user_id.to_owned(), ..self.query };
        ReservationQueryBuilder { query }
    }

    /// Constrain the resource.
    pub fn resource_id(self, resource_id: &str) -> (b: Self)
        ensures
            b.query == (ReservationQuery { resource_id: b.query.resource_id, ..self.query }),
            b.query.resource_id@ == resource_id@,
    {
        let query = ReservationQuery { resource_id: resource_id.to_owned(), ..self.query };
        ReservationQueryBuilder { query }
    }

    /// Set the lower bound of the window constraint.
    pub fn start(self, start: Timestamp) -> (b: Self)
        ensures
            b.query == (ReservationQuery { start: Some(start), ..self.query }),
    {
        let query = ReservationQuery { start: Some(start), ..self.query };
        ReservationQueryBuilder { query }
    }

    /// Set the upper bound of the window constraint.
    pub fn end(self, end: Timestamp) -> (b: Self)
        ensures
            b.query == (ReservationQuery { end: Some(end), ..self.query }),
    {
        let query = ReservationQuery { end: Some(end), ..self.query };
        ReservationQueryBuilder { query }
    }

    /// Constrain the status by wire code.
    pub fn status(self, status: i32) -> (b: Self)
        ensures
            b.query == (ReservationQuery { status, ..self.query }),
    {
        let query = ReservationQuery { status, ..self.query };
        ReservationQueryBuilder { query }
    }

    /// Select a page (1-indexed).
    pub fn page(self, page: i64) -> (b: Self)
        ensures
            b.query == (ReservationQuery { page, ..self.query }),
    {
        let query = ReservationQuery { page, ..self.query };
        ReservationQueryBuilder { query }
    }

    /// Bound the number of rows per page.
    pub fn page_size(self, page_size: i64) -> (b: Self)
        ensures
            b.query == (ReservationQuery { page_size, ..self.query }),
    {
        let query = ReservationQuery { page_size, ..self.query };
        ReservationQueryBuilder { query }
    }

    /// Order by window start descending when `desc` is set.
    pub fn desc(self, desc: bool) -> (b: Self)
        ensures
            b.query == (ReservationQuery { desc, ..self.query }),
    {
        let query = ReservationQuery { desc, ..self.query };
        ReservationQueryBuilder { query }
    }

    /// The assembled filter. Window well-formedness is checked by the
    /// consumer of the filter, so that a partially built filter can still be
    /// passed around.
    pub fn build(self) -> (q: ReservationQuery)
        ensures
            q == self.query,
    {
        self.query
    }
}

} // verus!
