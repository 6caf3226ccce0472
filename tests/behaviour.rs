use imap_parse::{
    capabilities_step, expunge_step, fetch_step, handle_unilateral, ids_step, mailbox_step,
    name_step, noop_step, parse_authenticate_response, parse_capabilities, parse_expunge,
    parse_fetches, parse_ids, parse_mailbox, parse_names, parse_noop, AttributeValue,
    Capabilities, Capability, Error, Mailbox, MailboxDatum, Outcome, Response, ResponseCode,
    Status, StatusAttribute, StatusItem, Step, UnsolicitedResponse,
};
use std::collections::HashSet;

fn done() -> Response {
    Response::Done { tag: "A7".to_string(), status: Status::Okay }
}

fn list(name: &str) -> Response {
    Response::MailboxData(MailboxDatum::List {
        flags: vec!["\\HasNoChildren".to_string()],
        delimiter: Some("/".to_string()),
        name: name.to_string(),
    })
}

#[test]
fn capabilities_repeated_in_other_case_count_once() {
    let records = vec![
        Response::Capabilities(vec![Capability::Imap4rev1, Capability::Atom("STARTTLS".to_string())]),
        Response::Capabilities(vec![
            Capability::Imap4rev1,
            Capability::Atom("StartTLS".to_string()),
            Capability::Auth("plain".to_string()),
            Capability::Auth("PLAIN".to_string()),
        ]),
        done(),
    ];
    let (caps, events) = parse_capabilities(records);
    let caps = caps.unwrap();
    assert!(events.is_empty());
    assert_eq!(caps.len(), 3);
    assert!(caps.has_str("imap4REV1"));
    assert!(caps.has_str("starttls"));
    assert!(caps.has_str("auth=Plain"));
    assert!(!caps.has_str("PLAIN"));
    assert!(!caps.has_str("LOGINDISABLED"));
}

#[test]
fn completion_alone_gives_empty_results() {
    let (caps, ev) = parse_capabilities(vec![done()]);
    assert_eq!(caps.unwrap().len(), 0);
    assert!(ev.is_empty());
    let (ids, ev) = parse_ids(vec![done()]);
    assert!(ids.unwrap().is_empty());
    assert!(ev.is_empty());
    let (r, ev) = parse_noop(vec![done()]);
    assert_eq!(r, Ok(()));
    assert!(ev.is_empty());
    let (names, ev) = parse_names(vec![done()]);
    assert!(names.is_empty() && ev.is_empty());
    let (fetches, ev) = parse_fetches(vec![done()]);
    assert!(fetches.is_empty() && ev.is_empty());
    let (ids, ev) = parse_expunge(vec![done()]);
    assert!(ids.is_empty() && ev.is_empty());
    let (mailbox, ev) = parse_mailbox(vec![done()]);
    let mailbox = mailbox.unwrap();
    assert!(ev.is_empty());
    assert_eq!(mailbox.exists, 0);
    assert_eq!(mailbox.recent, 0);
    assert!(mailbox.flags.is_empty() && mailbox.permanent_flags.is_empty());
    assert_eq!((mailbox.unseen, mailbox.uid_next, mailbox.uid_validity), (None, None, None));
}

#[test]
fn records_after_the_completion_are_not_read() {
    let (names, ev) = parse_names(vec![list("a"), done(), list("b"), Response::Expunge(1)]);
    assert_eq!(names.len(), 1);
    assert_eq!(names[0].as_ref().unwrap().name(), "a");
    assert!(ev.is_empty());
}

#[test]
fn listing_then_push_keeps_both_in_order() {
    let records = vec![
        list("INBOX"),
        Response::Expunge(4),
        list("Sent"),
        Response::MailboxData(MailboxDatum::Exists(9)),
        done(),
    ];
    let (names, ev) = parse_names(records);
    let names: Vec<_> = names.into_iter().map(|n| n.unwrap()).collect();
    assert_eq!(names.len(), 2);
    assert_eq!(names[0].name(), "INBOX");
    assert_eq!(names[0].delimiter(), Some("/"));
    assert_eq!(names[1].name(), "Sent");
    assert_eq!(ev, vec![UnsolicitedResponse::Expunge(4), UnsolicitedResponse::Exists(9)]);
}

#[test]
fn fetch_with_uid_only() {
    let (fetches, ev) = parse_fetches(vec![
        Response::Fetch(3, vec![AttributeValue::Uid(8), AttributeValue::Other]),
        done(),
    ]);
    assert!(ev.is_empty());
    let f = fetches[0].as_ref().unwrap();
    assert_eq!(f.message, 3);
    assert_eq!(f.uid, Some(8));
    assert!(f.flags().is_empty());
    assert_eq!(f.size, None);
    assert_eq!(f.fetch, vec![AttributeValue::Uid(8), AttributeValue::Other]);
}

#[test]
fn fetch_picks_flags_size_body_and_header() {
    let attrs = vec![
        AttributeValue::Flags(vec!["\\Seen".to_string()]),
        AttributeValue::Rfc822Size(120),
        AttributeValue::Rfc822Header(Some(b"Subject: x\r\n".to_vec())),
        AttributeValue::Flags(vec!["\\Answered".to_string(), "$Work".to_string()]),
        AttributeValue::Rfc822(Some(b"body".to_vec())),
        AttributeValue::Uid(5),
        AttributeValue::Uid(6),
    ];
    let (fetches, _) = parse_fetches(vec![Response::Fetch(1, attrs)]);
    let f = fetches[0].as_ref().unwrap();
    assert_eq!(f.flags(), &["\\Seen".to_string(), "\\Answered".to_string(), "$Work".to_string()]);
    assert_eq!(f.size, Some(120));
    assert_eq!(f.uid, Some(6));
    assert_eq!(f.body(), Some(&b"body"[..]));
    assert_eq!(f.header(), Some(&b"Subject: x\r\n"[..]));
}

#[test]
fn ids_collapse_duplicates() {
    let (ids, ev) = parse_ids(vec![
        Response::IDs(vec![1, 2, 3]),
        Response::IDs(vec![3, 4]),
        Response::IDs(vec![]),
        done(),
    ]);
    assert!(ev.is_empty());
    assert_eq!(ids.unwrap(), [1, 2, 3, 4].iter().cloned().collect::<HashSet<u32>>());
}

#[test]
fn unexpected_record_fails_aggregates() {
    let (caps, ev) = parse_capabilities(vec![
        Response::MailboxData(MailboxDatum::Recent(2)),
        Response::Continue,
        Response::Expunge(1),
        done(),
    ]);
    assert_eq!(caps.unwrap_err(), Error::Unexpected(Response::Continue));
    assert_eq!(ev, vec![UnsolicitedResponse::Recent(2)]);

    let (ids, _) = parse_ids(vec![list("x")]);
    assert_eq!(ids.unwrap_err(), Error::Unexpected(list("x")));

    let (r, ev) = parse_noop(vec![Response::Expunge(3), Response::IDs(vec![1])]);
    assert_eq!(r, Err(Error::Unexpected(Response::IDs(vec![1]))));
    assert_eq!(ev, vec![UnsolicitedResponse::Expunge(3)]);
}

#[test]
fn unexpected_record_is_an_error_item() {
    let fetch = Response::Fetch(2, vec![]);
    let (names, _) = parse_names(vec![list("a"), fetch, list("b")]);
    assert_eq!(names.len(), 3);
    assert_eq!(names[1], Err(Error::Unexpected(Response::Fetch(2, vec![]))));
    assert_eq!(names[2].as_ref().unwrap().name(), "b");

    let (ids, ev) = parse_expunge(vec![
        Response::Expunge(3),
        Response::MailboxData(MailboxDatum::Exists(5)),
        Response::Continue,
        Response::Expunge(4),
    ]);
    assert_eq!(ids, vec![Ok(3), Err(Error::Unexpected(Response::Continue)), Ok(4)]);
    assert_eq!(ev, vec![UnsolicitedResponse::Exists(5)]);

    let (fetches, _) = parse_fetches(vec![Response::IDs(vec![7])]);
    assert_eq!(fetches, vec![Err(Error::Unexpected(Response::IDs(vec![7])))]);
}

#[test]
fn mailbox_selection() {
    let records = vec![
        Response::MailboxData(MailboxDatum::Flags(vec!["\\Seen".to_string()])),
        Response::MailboxData(MailboxDatum::Exists(172)),
        Response::MailboxData(MailboxDatum::Recent(1)),
        Response::Data { status: Status::Okay, code: Some(ResponseCode::Unseen(12)) },
        Response::Data { status: Status::Okay, code: Some(ResponseCode::UidValidity(3857529045)) },
        Response::Data { status: Status::Okay, code: Some(ResponseCode::UidNext(4392)) },
        Response::Data {
            status: Status::Okay,
            code: Some(ResponseCode::PermanentFlags(vec!["\\Deleted".to_string()])),
        },
        Response::Data { status: Status::Okay, code: Some(ResponseCode::Other) },
        Response::MailboxData(MailboxDatum::Status {
            mailbox: "Other".to_string(),
            status: vec![StatusItem::Messages(1)],
        }),
        Response::Expunge(9),
        Response::MailboxData(MailboxDatum::Exists(173)),
        done(),
    ];
    let (mailbox, ev) = parse_mailbox(records);
    let mailbox = mailbox.unwrap();
    assert_eq!(mailbox.flags, vec!["\\Seen".to_string()]);
    assert_eq!(mailbox.exists, 173);
    assert_eq!(mailbox.recent, 1);
    assert_eq!(mailbox.unseen, Some(12));
    assert_eq!(mailbox.uid_validity, Some(3857529045));
    assert_eq!(mailbox.uid_next, Some(4392));
    assert_eq!(mailbox.permanent_flags, vec!["\\Deleted".to_string()]);
    assert_eq!(
        ev,
        vec![
            UnsolicitedResponse::Status {
                mailbox: "Other".to_string(),
                attributes: vec![StatusAttribute::Messages(1)],
            },
            UnsolicitedResponse::Expunge(9),
        ]
    );
}

#[test]
fn mailbox_errors() {
    let bad = Response::Data { status: Status::No, code: None };
    let (mailbox, _) = parse_mailbox(vec![Response::MailboxData(MailboxDatum::Exists(1)), bad]);
    assert_eq!(
        mailbox.unwrap_err(),
        Error::ProtocolViolation(Response::Data { status: Status::No, code: None })
    );
    let (mailbox, _) = parse_mailbox(vec![Response::IDs(vec![])]);
    assert_eq!(mailbox.unwrap_err(), Error::Unexpected(Response::IDs(vec![])));
}

#[test]
fn status_push_keeps_closed_attribute_set() {
    let r = Response::MailboxData(MailboxDatum::Status {
        mailbox: "INBOX".to_string(),
        status: vec![
            StatusItem::HighestModSeq(77),
            StatusItem::Unseen(2),
            StatusItem::Recent(1),
            StatusItem::UidNext(40),
        ],
    });
    assert_eq!(
        handle_unilateral(r),
        Ok(UnsolicitedResponse::Status {
            mailbox: "INBOX".to_string(),
            attributes: vec![StatusAttribute::Unseen(2), StatusAttribute::UidNext(40)],
        })
    );
    assert_eq!(handle_unilateral(Response::Continue), Err(Response::Continue));
}

#[test]
fn authenticate_response_payload() {
    assert_eq!(parse_authenticate_response("+ YGgGCSqGSIb3EgECAgIBAAD/////\r\n"), Ok("YGgGCSqGSIb3EgECAgIBAAD/////"));
    assert_eq!(parse_authenticate_response("+ \r\n"), Ok(""));
    assert_eq!(parse_authenticate_response("+ a\r\nb\r\n"), Ok("a"));
}

#[test]
fn authenticate_response_rejects_other_lines() {
    for line in ["* OK ready\r\n", "+ no line end", "+ a\nb\r\n", "+\r\n", ""] {
        assert_eq!(
            parse_authenticate_response(line),
            Err(Error::Authentication(line.to_string()))
        );
    }
}

#[test]
fn steps_route_one_record() {
    assert_eq!(name_step(Response::Expunge(2)), Step::Push(UnsolicitedResponse::Expunge(2)));
    assert_eq!(expunge_step(Response::Expunge(2)), Step::Item(Ok(2)));
    assert_eq!(
        expunge_step(Response::MailboxData(MailboxDatum::Recent(3))),
        Step::Push(UnsolicitedResponse::Recent(3))
    );
    assert_eq!(
        fetch_step(Response::Continue),
        Step::Item(Err(Error::Unexpected(Response::Continue)))
    );
    match name_step(list("Drafts")) {
        Step::Item(Ok(n)) => assert_eq!(n.name(), "Drafts"),
        other => panic!("unexpected step {:?}", other),
    }
}

#[test]
fn mailbox_list_record_is_unexpected() {
    let (mailbox, ev) = parse_mailbox(vec![
        Response::MailboxData(MailboxDatum::Exists(3)),
        list("INBOX"),
        Response::Expunge(1),
        done(),
    ]);
    assert_eq!(mailbox.unwrap_err(), Error::Unexpected(list("INBOX")));
    assert!(ev.is_empty());
}

#[test]
fn mailbox_flags_are_overwritten_by_later_records() {
    let (mailbox, _) = parse_mailbox(vec![
        Response::MailboxData(MailboxDatum::Flags(vec!["\\Seen".to_string()])),
        Response::Data {
            status: Status::Okay,
            code: Some(ResponseCode::PermanentFlags(vec!["\\Deleted".to_string()])),
        },
        Response::MailboxData(MailboxDatum::Flags(vec![
            "\\Answered".to_string(),
            "\\Draft".to_string(),
        ])),
        Response::Data {
            status: Status::Okay,
            code: Some(ResponseCode::PermanentFlags(vec!["\\*".to_string()])),
        },
        done(),
    ]);
    let mailbox = mailbox.unwrap();
    assert_eq!(mailbox.flags, vec!["\\Answered".to_string(), "\\Draft".to_string()]);
    assert_eq!(mailbox.permanent_flags, vec!["\\*".to_string()]);
}

#[test]
fn aggregate_steps_route_one_record() {
    let mut caps = Capabilities::new();
    assert_eq!(
        capabilities_step(&mut caps, Response::Capabilities(vec![Capability::Imap4rev1])),
        Outcome::Taken
    );
    assert!(caps.has_str("IMAP4rev1"));
    assert_eq!(
        capabilities_step(&mut caps, Response::Expunge(5)),
        Outcome::Push(UnsolicitedResponse::Expunge(5))
    );
    assert_eq!(
        capabilities_step(&mut caps, Response::Continue),
        Outcome::Fail(Error::Unexpected(Response::Continue))
    );
    assert_eq!(caps.len(), 1);

    let mut ids = HashSet::new();
    assert_eq!(ids_step(&mut ids, Response::IDs(vec![4, 4, 9])), Outcome::Taken);
    assert_eq!(ids, [4, 9].iter().cloned().collect::<HashSet<u32>>());

    assert_eq!(noop_step(Response::Expunge(2)), Outcome::Push(UnsolicitedResponse::Expunge(2)));
    assert_eq!(noop_step(list("a")), Outcome::Fail(Error::Unexpected(list("a"))));

    let mut mailbox = Mailbox::new();
    assert_eq!(
        mailbox_step(&mut mailbox, Response::MailboxData(MailboxDatum::Exists(7))),
        Outcome::Taken
    );
    assert_eq!(mailbox.exists, 7);
    assert_eq!(
        mailbox_step(&mut mailbox, Response::MailboxData(MailboxDatum::Recent(1))),
        Outcome::Taken
    );
    assert_eq!(mailbox.recent, 1);
    let bad = Response::Data { status: Status::Bad, code: None };
    assert_eq!(
        mailbox_step(&mut mailbox, Response::Data { status: Status::Bad, code: None }),
        Outcome::Fail(Error::ProtocolViolation(bad))
    );
}
