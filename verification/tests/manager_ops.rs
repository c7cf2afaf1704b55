use chrono::{DateTime, FixedOffset};
use reservation::{
    Reservation, ReservationError, ReservationManager, ReservationQueryBuilder, ReservationStatus,
    Rsvp, Timestamp,
};

fn ts(s: &str) -> Timestamp {
    let dt: DateTime<FixedOffset> = s.parse().unwrap();
    Timestamp::new(dt.timestamp(), dt.timestamp_subsec_nanos() as i32)
}

/// generate a pending reservation
fn generate_resource(
    user_id: &str,
    resource_id: &str,
    start: &str,
    end: &str,
    note: &str,
) -> Reservation {
    Reservation {
        id: 0,
        user_id: user_id.to_string(),
        status: ReservationStatus::Pending as i32,
        resource_id: resource_id.to_string(),
        start: Some(ts(start)),
        end: Some(ts(end)),
        note: note.to_string(),
    }
}

#[test]
fn reserve_should_work_for_valid_window() {
    let mut manager = ReservationManager::new();
    let rsvp = generate_resource(
        "M4n5ter",
        "hotel room 1",
        "2022-11-18T12:00:00+0800",
        "2022-11-20T14:00:00+0800",
        "I'll arrive at 3PM.Please hold",
    );

    let rsvp = manager.reserve(rsvp).unwrap();
    assert!(rsvp.id != 0);
}

#[test]
fn reserve_should_not_work_for_conflict_window() {
    let mut manager = ReservationManager::new();
    let rsvp = generate_resource(
        "M4n5ter",
        "hotel room 1",
        "2022-11-18T12:00:00+0800",
        "2022-11-20T14:00:00+0800",
        "I'll arrive at 3PM.Please hold",
    );

    manager.reserve(rsvp).unwrap();

    let rsvp = generate_resource(
        "Syuu",
        "hotel room 1",
        "2022-11-17T12:00:00+0800",
        "2022-11-29T14:00:00+0800",
        "I'll arrive at 3PM.Please hold",
    );

    let err = manager.reserve(rsvp);
    assert!(err.is_err());
}

/// change status should work for pending reservation
#[test]
fn change_status_should_work_for_pending_reservation() {
    let mut manager = ReservationManager::new();
    let rsvp = generate_resource(
        "Syuu",
        "hotel room 1",
        "2022-11-17T12:00:00+0800",
        "2022-11-29T14:00:00+0800",
        "I'll arrive at 3PM.Please hold",
    );
    let rsvp = manager.reserve(rsvp).unwrap();
    let rsvp = manager.change_status(rsvp.id).unwrap();
    assert_eq!(rsvp.status, ReservationStatus::Confirmed as i32);
}

/// query should work
#[test]
fn query_should_work() {
    let mut manager = ReservationManager::new();

    // STEP 1: reserve a reservation, change status to confirmed and query it.
    let rsvp_1 = generate_resource(
        "Syuu",
        "hotel room 1",
        "2022-11-13T12:00:00+0800",
        "2022-11-16T14:00:00+0800",
        "I'll arrive at 12AM.Please hold",
    );
    let rsvp_1 = manager.reserve(rsvp_1).unwrap();
    manager.change_status(rsvp_1.id).unwrap();

    let query = ReservationQueryBuilder::default()
        .user_id("Syuu")
        .resource_id("hotel room 1")
        .start(ts("2022-11-13T12:00:00+0800"))
        .end(ts("2022-11-16T14:00:00+0800"))
        .status(ReservationStatus::Confirmed as i32)
        .build();

    let rsvps = manager.query(query).unwrap();
    assert_eq!(rsvps.len(), 1);
    assert_eq!(rsvps[0].id, rsvp_1.id);

    // STEP 2: reserve another one whose status is pending and query it.
    let rsvp_2 = generate_resource(
        "Syuu",
        "hotel room 1",
        "2022-12-17T15:00:00+0800",
        "2022-12-25T14:00:00+0800",
        "I'll arrive at 3PM.Please hold",
    );
    let rsvp_2 = manager.reserve(rsvp_2).unwrap();
    let query = ReservationQueryBuilder::default()
        .user_id("Syuu")
        .resource_id("hotel room 1")
        .start(ts("2022-12-16T12:00:00+0800"))
        .end(ts("2022-12-26T14:00:00+0800"))
        .status(ReservationStatus::Pending as i32)
        .build();
    let rsvps = manager.query(query).unwrap();
    assert_eq!(rsvps.len(), 1);
    assert_eq!(rsvps[0].id, rsvp_2.id);

    // STEP 3: generate three pending reservations whose user is not Syuu and
    // resource is not hotel room 1, then query two of them by time range.
    let rsvp_3 = generate_resource(
        "M4n5ter",
        "hotel room 2",
        "2022-12-17T15:00:00+0800",
        "2022-12-25T14:00:00+0800",
        "I'll arrive at 3PM.Please hold",
    );
    let rsvp_3 = manager.reserve(rsvp_3).unwrap();
    let rsvp_4 = generate_resource(
        "M4n5ter",
        "hotel room 2",
        "2023-01-02T15:00:00+0800",
        "2023-01-03T14:00:00+0800",
        "I'll arrive at 3PM.Please hold",
    );
    let rsvp_4 = manager.reserve(rsvp_4).unwrap();
    let rsvp_5 = generate_resource(
        "M4n5ter",
        "hotel room 2",
        "2023-01-04T15:00:00+0800",
        "2023-01-05T14:00:00+0800",
        "I'll arrive at 3PM.Please hold",
    );
    let rsvp_5 = manager.reserve(rsvp_5).unwrap();
    let query = ReservationQueryBuilder::default()
        .user_id("M4n5ter")
        .resource_id("hotel room 2")
        .start(ts("2022-12-16T12:00:00+0800"))
        .end(ts("2023-01-04T14:00:00+0800"))
        .status(ReservationStatus::Pending as i32)
        .build();
    let rsvps = manager.query(query).unwrap();
    assert_eq!(rsvps.len(), 2);
    assert_eq!(rsvps[0].id, rsvp_3.id);
    assert_eq!(rsvps[1].id, rsvp_4.id);

    // STEP 4: generate two confirmed reservations, one Syuu in hotel room 2
    // and one M4n5ter in hotel room 1, then query everything above by
    // different conditions.
    let rsvp_6 = generate_resource(
        "Syuu",
        "hotel room 2",
        "2023-01-17T15:00:00+0800",
        "2023-01-25T14:00:00+0800",
        "I'll arrive at 3PM.Please hold",
    );
    let rsvp_6 = manager.reserve(rsvp_6).unwrap();
    manager.change_status(rsvp_6.id).unwrap();
    let rsvp_7 = generate_resource(
        "M4n5ter",
        "hotel room 1",
        "2023-01-17T15:00:00+0800",
        "2023-01-25T14:00:00+0800",
        "I'll arrive at 3PM.Please hold",
    );
    let rsvp_7 = manager.reserve(rsvp_7).unwrap();
    manager.change_status(rsvp_7.id).unwrap();
    let query = ReservationQueryBuilder::default()
        .resource_id("hotel room 1")
        .start(ts("2021-01-16T12:00:00+0800"))
        .end(ts("2025-01-26T14:00:00+0800"))
        .status(ReservationStatus::Pending as i32)
        .build();
    let rsvps = manager.query(query).unwrap();
    assert_eq!(rsvps.len(), 1);
    assert_eq!(rsvps[0].id, rsvp_2.id);

    // STEP 6: query all confirmed reservations within time range whose
    // resource is hotel room 1, ordered by start time descending.
    let query = ReservationQueryBuilder::default()
        .resource_id("hotel room 1")
        .start(ts("2021-01-16T12:00:00+0800"))
        .end(ts("2025-01-26T14:00:00+0800"))
        .status(ReservationStatus::Confirmed as i32)
        .desc(true)
        .build();
    let rsvps = manager.query(query).unwrap();
    assert_eq!(rsvps.len(), 2);
    assert_eq!(rsvps[0].id, rsvp_7.id);
    assert_eq!(rsvps[1].id, rsvp_1.id);

    // STEP 7: query all pending reservations within time range whose
    // resource is hotel room 2, descending.
    let query = ReservationQueryBuilder::default()
        .resource_id("hotel room 2")
        .start(ts("2021-01-16T12:00:00+0800"))
        .end(ts("2025-01-26T14:00:00+0800"))
        .status(ReservationStatus::Pending as i32)
        .desc(true)
        .build();
    let rsvps = manager.query(query).unwrap();
    assert_eq!(rsvps.len(), 3);
    assert_eq!(rsvps[0].id, rsvp_5.id);
    assert_eq!(rsvps[1].id, rsvp_4.id);
    assert_eq!(rsvps[2].id, rsvp_3.id);

    // STEP 8: query all confirmed reservations within time range whose
    // resource is hotel room 2.
    let query = ReservationQueryBuilder::default()
        .resource_id("hotel room 2")
        .start(ts("2021-01-16T12:00:00+0800"))
        .end(ts("2025-01-26T14:00:00+0800"))
        .status(ReservationStatus::Confirmed as i32)
        .build();
    let rsvps = manager.query(query).unwrap();
    assert_eq!(rsvps.len(), 1);
    assert_eq!(rsvps[0].id, rsvp_6.id);

    // STEP 9: query all pending reservations within time range whose user is
    // Syuu.
    let query = ReservationQueryBuilder::default()
        .user_id("Syuu")
        .start(ts("2021-01-16T12:00:00+0800"))
        .end(ts("2025-01-26T14:00:00+0800"))
        .status(ReservationStatus::Pending as i32)
        .build();
    let rsvps = manager.query(query).unwrap();
    assert_eq!(rsvps.len(), 1);
    assert_eq!(rsvps[0].id, rsvp_2.id);

    // STEP 10: query all confirmed reservations within time range whose user
    // is Syuu.
    let query = ReservationQueryBuilder::default()
        .user_id("Syuu")
        .start(ts("2021-01-16T12:00:00+0800"))
        .end(ts("2025-01-26T14:00:00+0800"))
        .status(ReservationStatus::Confirmed as i32)
        .build();
    let rsvps = manager.query(query).unwrap();
    assert_eq!(rsvps.len(), 2);
    assert_eq!(rsvps[0].id, rsvp_1.id);
    assert_eq!(rsvps[1].id, rsvp_6.id);

    // STEP 11: query all pending reservations within time range whose user
    // is M4n5ter.
    let query = ReservationQueryBuilder::default()
        .user_id("M4n5ter")
        .start(ts("2021-01-16T12:00:00+0800"))
        .end(ts("2025-01-26T14:00:00+0800"))
        .status(ReservationStatus::Pending as i32)
        .build();
    let rsvps = manager.query(query).unwrap();
    assert_eq!(rsvps.len(), 3);
    assert_eq!(rsvps[0].id, rsvp_3.id);
    assert_eq!(rsvps[1].id, rsvp_4.id);
    assert_eq!(rsvps[2].id, rsvp_5.id);

    // STEP 12: query all confirmed reservations within time range whose user
    // is M4n5ter.
    let query = ReservationQueryBuilder::default()
        .user_id("M4n5ter")
        .start(ts("2021-01-16T12:00:00+0800"))
        .end(ts("2025-01-26T14:00:00+0800"))
        .status(ReservationStatus::Confirmed as i32)
        .build();
    let rsvps = manager.query(query).unwrap();
    assert_eq!(rsvps.len(), 1);
    assert_eq!(rsvps[0].id, rsvp_7.id);

    // STEP 13: query all pending reservations within time range.
    let query = ReservationQueryBuilder::default()
        .status(ReservationStatus::Pending as i32)
        .start(ts("2021-01-16T12:00:00+0800"))
        .end(ts("2025-01-26T14:00:00+0800"))
        .build();
    let rsvps = manager.query(query).unwrap();
    assert_eq!(rsvps.len(), 4);
    assert_eq!(rsvps[0].id, rsvp_2.id);
    assert_eq!(rsvps[1].id, rsvp_3.id);
    assert_eq!(rsvps[2].id, rsvp_4.id);
    assert_eq!(rsvps[3].id, rsvp_5.id);

    // STEP 14: query all confirmed reservations within time range.
    let query = ReservationQueryBuilder::default()
        .status(ReservationStatus::Confirmed as i32)
        .start(ts("2021-01-16T12:00:00+0800"))
        .end(ts("2025-01-26T14:00:00+0800"))
        .build();
    let rsvp = manager.query(query).unwrap();
    assert_eq!(rsvp.len(), 3);
    assert_eq!(rsvp[0].id, rsvp_1.id);
    assert_eq!(rsvp[1].id, rsvp_6.id);
    assert_eq!(rsvp[2].id, rsvp_7.id);
}

/// update_note should work
#[test]
fn update_note_should_work() {
    let mut manager = ReservationManager::new();
    // generate a pending resource
    let rsvp_8 = generate_resource(
        "Syuu",
        "hotel room 2",
        "2021-01-16T12:00:00+0800",
        "2025-01-26T14:00:00+0800",
        "note 1",
    );

    let rsvp_8 = manager.reserve(rsvp_8).unwrap();
    let rsvp_8 = manager
        .update_note(
            rsvp_8.id,
            "note 2 AND DROP TABLE rsvp.reservations CASCADE -- + ???".into(),
        )
        .unwrap();
    assert_eq!(
        rsvp_8.note,
        "note 2 AND DROP TABLE rsvp.reservations CASCADE -- + ???"
    );
}

/// get should work
#[test]
fn get_should_work() {
    let mut manager = ReservationManager::new();
    // generate a pending resource
    let rsvp_9 = generate_resource(
        "M4n5ter",
        "class room 1",
        "1991-01-16T12:00:00+0800",
        "1992-01-26T14:00:00+0800",
        "note 1",
    );

    let rsvp_9 = manager.reserve(rsvp_9).unwrap();
    let rsvp_9 = manager.change_status(rsvp_9.id).unwrap();
    let rsvp_9 = manager.get(rsvp_9.id).unwrap();
    assert_eq!(rsvp_9.user_id, "M4n5ter");
    assert_eq!(rsvp_9.resource_id, "class room 1");
    assert_eq!(rsvp_9.start, Some(ts("1991-01-16T12:00:00+0800")));
    assert_eq!(rsvp_9.end, Some(ts("1992-01-26T14:00:00+0800")));
    assert_eq!(rsvp_9.note, "note 1");
    assert_eq!(rsvp_9.status, ReservationStatus::Confirmed as i32);
}

/// delete should work
#[test]
fn delete_should_work() {
    let mut manager = ReservationManager::new();
    // generate a pending resource
    let rsvp_10 = generate_resource(
        "M4n5ter",
        "class room 1",
        "1991-01-16T12:00:00+0800",
        "1992-01-26T14:00:00+0800",
        "note 1",
    );
    let rsvp_10 = manager.reserve(rsvp_10).unwrap();
    let rsvp_10 = manager.change_status(rsvp_10.id).unwrap();
    let rsvp_10 = manager.delete(rsvp_10.id).unwrap();
    let err = manager.get(rsvp_10.id).unwrap_err();
    assert_eq!(err, ReservationError::NotFound);
}
