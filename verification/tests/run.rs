use base64::Engine;
use image_uploader::discovery::{discover, Entry, Walked};
use image_uploader::encoding::encode_image;
use image_uploader::pipeline::{Action, Event, Failure, Pipeline};
use image_uploader::pool::{Decision, Pool, MAX_IN_FLIGHT};
use image_uploader::request::PAYLOAD_FIELD;
use std::path::Path;

/// What a stand-in for the endpoint does with a request.
enum Reply {
    Body(Vec<u8>),
    Refused,
}

/// A file of the tree: its path and what reading it gives.
struct File {
    path: String,
    content: Option<Vec<u8>>,
}

/// What a run leaves behind.
struct Run {
    log: Vec<u8>,
    processed: Vec<String>,
    errors: Vec<String>,
    most_in_flight: usize,
    requests: Vec<Vec<u8>>,
}

struct Flying {
    pipeline: Pipeline,
    path: String,
    event: Option<Event>,
}

fn image_of(request: &[u8]) -> Vec<u8> {
    let value: serde_json::Value = match serde_json::from_slice(request) {
        Ok(value) => value,
        Err(_) => panic!("the request is not JSON"),
    };
    let text = match value.get(PAYLOAD_FIELD).and_then(|v| v.as_str()) {
        Some(text) => text.to_string(),
        None => panic!("the request has no image"),
    };
    match base64::engine::general_purpose::STANDARD.decode(text) {
        Ok(bytes) => bytes,
        Err(_) => panic!("the image is not base64"),
    }
}

fn first_event(file: &File) -> Event {
    match &file.content {
        Some(bytes) => Event::Encoded { text: encode_image(bytes) },
        None => Event::Failed { failure: Failure::Open },
    }
}

/// Drives a whole run as its driver would, with the outside work done by
/// stand-ins: `endpoint` answers requests, `log` is the log file.
fn run(files: &[File], endpoint: &dyn Fn(&[u8]) -> Reply, log: Vec<u8>) -> Run {
    let walk: Vec<Walked> = files
        .iter()
        .map(|f| {
            Walked::Found(Entry {
                extension: Path::new(&f.path).extension().and_then(|e| e.to_str()).map(|e| e.to_string()),
                is_file: true,
            })
        })
        .collect();
    let found = match discover(&walk) {
        Some(found) => found,
        None => panic!("the root was read"),
    };
    let mut out = Run { log, processed: Vec::new(), errors: Vec::new(), most_in_flight: 0, requests: Vec::new() };
    let mut pool = Pool::new(found.len());
    let mut flying: Vec<Flying> = Vec::new();
    let mut turn = 0usize;
    loop {
        match pool.poll() {
            Decision::Start(position) => {
                let file = &files[found[position]];
                flying.push(Flying {
                    pipeline: Pipeline::new(file.path.clone()),
                    path: file.path.clone(),
                    event: Some(first_event(file)),
                });
            }
            Decision::Wait => {
                turn += 1;
                let chosen = (turn * 5) % flying.len();
                let event = match flying[chosen].event.take() {
                    Some(event) => event,
                    None => panic!("a pipeline in flight has nothing to do"),
                };
                let next = match flying[chosen].pipeline.step(event) {
                    Action::Send { body } => {
                        out.requests.push(body.clone());
                        match endpoint(&body) {
                            Reply::Body(body) => Some(Event::Answered { body }),
                            Reply::Refused => Some(Event::Failed { failure: Failure::Send }),
                        }
                    }
                    Action::Append { row } => {
                        out.log.extend_from_slice(&row);
                        Some(Event::Written)
                    }
                    Action::Succeed => {
                        out.processed.push(flying[chosen].path.clone());
                        None
                    }
                    Action::Fail { failure } => {
                        out.errors.push(format!("{}: {}", flying[chosen].path, failure.message()));
                        None
                    }
                    Action::Idle => panic!("the pipeline did not move"),
                };
                if flying[chosen].pipeline.has_ended() {
                    flying.remove(chosen);
                    assert!(pool.complete());
                } else {
                    flying[chosen].event = next;
                }
            }
            Decision::Done => break,
        }
        assert_eq!(pool.running(), flying.len());
        out.most_in_flight = out.most_in_flight.max(flying.len());
    }
    assert!(flying.is_empty());
    out
}

fn rows(log: &[u8]) -> Vec<(String, String)> {
    let mut reader = csv::ReaderBuilder::new().has_headers(false).from_reader(log);
    let mut rows = Vec::new();
    for record in reader.records() {
        match record {
            Ok(record) => {
                assert_eq!(record.len(), 2);
                rows.push((record[0].to_string(), record[1].to_string()));
            }
            Err(_) => panic!("the log is not CSV"),
        }
    }
    rows
}

fn images(count: usize) -> Vec<File> {
    (0..count)
        .map(|i| File { path: format!("IMAGES/set/{}.png", i), content: Some(vec![i as u8; i + 1]) })
        .collect()
}

fn echo(_request: &[u8]) -> Reply {
    Reply::Body(b"{\"received\": true}".to_vec())
}

#[test]
fn every_image_gets_a_row_when_the_endpoint_answers() {
    let files = images(7);
    let out = run(&files, &echo, Vec::new());
    let rows = rows(&out.log);
    assert_eq!(rows.len(), 7);
    let mut paths: Vec<String> = rows.iter().map(|r| r.0.clone()).collect();
    paths.sort();
    paths.dedup();
    assert_eq!(paths.len(), 7);
    for (path, response) in &rows {
        assert!(files.iter().any(|f| &f.path == path));
        assert_eq!(response, "{\"received\":true}");
    }
    assert_eq!(out.processed.len(), 7);
    assert!(out.errors.is_empty());
}

#[test]
fn each_request_carries_its_image() {
    let files = images(5);
    let out = run(&files, &echo, Vec::new());
    let mut sent: Vec<Vec<u8>> = out.requests.iter().map(|r| image_of(r)).collect();
    sent.sort();
    let mut expected: Vec<Vec<u8>> = files.iter().filter_map(|f| f.content.clone()).collect();
    expected.sort();
    assert_eq!(sent, expected);
}

#[test]
fn a_refused_connection_costs_one_row() {
    let files = images(6);
    let doomed = vec![3u8; 4];
    let endpoint = move |request: &[u8]| {
        if image_of(request) == doomed {
            Reply::Refused
        } else {
            echo(request)
        }
    };
    let out = run(&files, &endpoint, Vec::new());
    let rows = rows(&out.log);
    assert_eq!(rows.len(), 5);
    assert!(rows.iter().all(|r| r.0 != "IMAGES/set/3.png"));
    assert_eq!(out.processed.len(), 5);
    assert_eq!(out.errors, vec!["IMAGES/set/3.png: Failed to send request to API".to_string()]);
}

#[test]
fn a_malformed_answer_fails_that_image_only() {
    let files = images(4);
    let doomed = vec![1u8; 2];
    let endpoint = move |request: &[u8]| {
        if image_of(request) == doomed {
            Reply::Body(b"{\"received\": tr".to_vec())
        } else {
            echo(request)
        }
    };
    let out = run(&files, &endpoint, Vec::new());
    let rows = rows(&out.log);
    assert_eq!(rows.len(), 3);
    assert!(rows.iter().all(|r| r.0 != "IMAGES/set/1.png"));
    assert_eq!(out.errors, vec!["IMAGES/set/1.png: Failed to parse API response".to_string()]);
    assert_eq!(out.processed.len(), 3);
}

#[test]
fn an_unreadable_file_fails_that_image_only() {
    let mut files = images(3);
    files[2].content = None;
    let out = run(&files, &echo, Vec::new());
    assert_eq!(rows(&out.log).len(), 2);
    assert_eq!(out.requests.len(), 2);
    assert_eq!(out.errors, vec!["IMAGES/set/2.png: Failed to open image file".to_string()]);
}

#[test]
fn files_that_are_no_images_are_not_sent() {
    let mut files = images(3);
    files.push(File { path: "IMAGES/set/readme.txt".to_string(), content: Some(b"text".to_vec()) });
    files.push(File { path: "IMAGES/set/archive".to_string(), content: Some(b"data".to_vec()) });
    let out = run(&files, &echo, Vec::new());
    assert_eq!(rows(&out.log).len(), 3);
    assert_eq!(out.requests.len(), 3);
    assert!(out.errors.is_empty());
}

#[test]
fn fifty_images_keep_within_ten_requests() {
    let files = images(50);
    let out = run(&files, &echo, Vec::new());
    assert_eq!(out.most_in_flight, MAX_IN_FLIGHT);
    assert_eq!(rows(&out.log).len(), 50);
    assert_eq!(out.processed.len(), 50);
}

#[test]
fn a_second_run_appends_to_the_first() {
    let files = images(4);
    let first = run(&files, &echo, Vec::new());
    let first_rows = rows(&first.log);
    let second = run(&files, &echo, first.log.clone());
    assert!(second.log.starts_with(&first.log));
    let all = rows(&second.log);
    assert_eq!(all.len(), 8);
    assert_eq!(&all[..4], &first_rows[..]);
    let mut again: Vec<String> = all[4..].iter().map(|r| r.0.clone()).collect();
    again.sort();
    let mut once: Vec<String> = first_rows.iter().map(|r| r.0.clone()).collect();
    once.sort();
    assert_eq!(again, once);
}

#[test]
fn an_empty_tree_makes_an_empty_run() {
    let out = run(&[], &echo, Vec::new());
    assert!(out.log.is_empty());
    assert!(out.processed.is_empty());
    assert!(out.errors.is_empty());
    assert_eq!(out.most_in_flight, 0);
}
