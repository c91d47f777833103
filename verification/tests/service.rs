use initvec::service::{crawl_reply, health, Crawl, CrawlReply, Health, Status};

#[test]
fn database_is_well_when_it_answers_pong() {
    assert_eq!(
        Health { server: Status::Up, redis: Status::Up },
        health(Some("PONG".to_string()))
    );
}

#[test]
fn database_is_down_otherwise() {
    let down = Health { server: Status::Up, redis: Status::Down };
    assert_eq!(down, health(None));
    assert_eq!(down, health(Some("pong".to_string())));
    assert_eq!(down, health(Some("PONG ".to_string())));
    assert_eq!(down, health(Some(String::new())));
}

#[test]
fn crawl_that_found_a_path() {
    let reply = crawl_reply(Ok(Some("[(1), (2)]".to_string())));
    assert_eq!(CrawlReply::Found(Crawl { path: "[(1), (2)]".to_string(), gp: 0 }), reply);
    assert_eq!(200, reply.status());
}

#[test]
fn crawl_that_found_none() {
    let reply = crawl_reply(Ok(None));
    assert_eq!(CrawlReply::NotFound(Crawl { path: String::new(), gp: 0 }), reply);
    assert_eq!(CrawlReply::NotFound(Crawl::default()), reply);
    assert_eq!(404, reply.status());
}

#[test]
fn crawl_that_failed() {
    let reply = crawl_reply(Err("connection refused".to_string()));
    assert_eq!(CrawlReply::Failed("connection refused".to_string()), reply);
    assert_eq!(500, reply.status());
}
