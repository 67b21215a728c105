use candela::descriptor::{Classification, Descriptor, DescriptorSet};
use candela::probe::{Outcome, ProbeResponse};
use candela::scheduler::Scheduler;
use candela::sink::{cli_line, stream_frames};

fn github() -> DescriptorSet {
    let mut set = DescriptorSet::new();
    set.insert(Descriptor {
        name: "GitHub".to_string(),
        url_template: "https://github.com/{}".to_string(),
        classification: Classification::from_tag(&Some("status_code".to_string())),
    });
    set
}

/// Runs the batch against a mock that answers every request with `response`;
/// returns the URLs requested and the lines printed.
fn run(set: &DescriptorSet, username: &str, response: ProbeResponse) -> (Vec<String>, Vec<String>, Vec<String>) {
    let (mut scheduler, reaction) = Scheduler::start(set, username);
    let mut requested: Vec<String> = Vec::new();
    let mut lines: Vec<String> = Vec::new();
    let mut frames: Vec<String> = stream_frames(&reaction).iter().map(|f| f.render()).collect();
    let mut outstanding = reaction.launches;
    while let Some(launch) = outstanding.pop() {
        requested.push(launch.url);
        let reaction = scheduler.complete(launch.id, response).expect("the probe is in flight");
        if let Some(result) = &reaction.result {
            if let Some(line) = cli_line(result) {
                lines.push(line);
            }
        }
        frames.extend(stream_frames(&reaction).iter().map(|f| f.render()));
        outstanding.extend(reaction.launches);
    }
    assert!(scheduler.is_finished());
    (requested, lines, frames)
}

#[test]
fn github_octocat_found() {
    let (requested, lines, frames) = run(&github(), "octocat", ProbeResponse::Status(200));
    assert_eq!(requested, vec!["https://github.com/octocat"]);
    assert_eq!(lines, vec!["GitHub: https://github.com/octocat"]);
    assert_eq!(frames, vec!["data: https://github.com/octocat\n\n", "data: done\n\n"]);
}

#[test]
fn github_octocat_not_found() {
    let (requested, lines, frames) = run(&github(), "octocat", ProbeResponse::Status(404));
    assert_eq!(requested, vec!["https://github.com/octocat"]);
    assert!(lines.is_empty());
    assert_eq!(frames, vec!["data: done\n\n"]);
}

#[test]
fn only_the_status_code_entry_is_fetched() {
    let mut set = github();
    set.insert(Descriptor {
        name: "Forum".to_string(),
        url_template: "https://forum.example/u/{}".to_string(),
        classification: Classification::from_tag(&Some("regexCheck".to_string())),
    });
    assert_eq!(set.len(), 2);
    let (requested, lines, _) = run(&set, "octocat", ProbeResponse::Status(200));
    assert_eq!(requested, vec!["https://github.com/octocat"]);
    assert_eq!(lines, vec!["GitHub: https://github.com/octocat"]);
}

#[test]
fn untagged_entry_is_not_fetched() {
    let mut set = DescriptorSet::new();
    set.insert(Descriptor {
        name: "Plain".to_string(),
        url_template: "https://plain.example/{}".to_string(),
        classification: Classification::from_tag(&None),
    });
    let (requested, lines, frames) = run(&set, "octocat", ProbeResponse::Status(200));
    assert!(requested.is_empty());
    assert!(lines.is_empty());
    assert_eq!(frames, vec!["data: done\n\n"]);
}

#[test]
fn hanging_server_is_dropped_and_the_run_completes() {
    let (mut scheduler, reaction) = Scheduler::start(&github(), "octocat");
    assert_eq!(reaction.launches.len(), 1);
    let reaction = scheduler.complete(reaction.launches[0].id, ProbeResponse::Failed).unwrap();
    let result = reaction.result.as_ref().unwrap();
    assert_eq!(result.outcome, Outcome::Inconclusive);
    assert_eq!(cli_line(result), None);
    assert!(reaction.finished);
    assert!(scheduler.is_finished());
    let frames: Vec<String> = stream_frames(&reaction).iter().map(|f| f.render()).collect();
    assert_eq!(frames, vec!["data: done\n\n"]);
}

#[test]
fn run_without_claims_is_a_valid_result() {
    let (requested, lines, frames) = run(&github(), "nobody", ProbeResponse::Status(500));
    assert_eq!(requested, vec!["https://github.com/nobody"]);
    assert!(lines.is_empty());
    assert_eq!(frames, vec!["data: done\n\n"]);
}
