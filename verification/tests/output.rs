use candela::client::{ClientConfig, REQUEST_TIMEOUT_SECS};
use candela::descriptor::{Classification, Descriptor, DescriptorSet};
use candela::probe::{Outcome, ProbeResponse};
use candela::scheduler::{ProbeResult, Reaction, Scheduler};
use candela::sink::{cli_line, stream_frames, stream_preamble, Frame};

fn result(name: &str, url: &str, outcome: Outcome) -> ProbeResult {
    ProbeResult { name: name.to_string(), resolved_url: url.to_string(), outcome }
}

fn texts(reaction: &Reaction) -> Vec<String> {
    stream_frames(reaction).iter().map(|f| f.render()).collect()
}

#[test]
fn data_frame_text() {
    assert_eq!(Frame::Data("https://github.com/octocat".to_string()).render(), "data: https://github.com/octocat\n\n");
    assert_eq!(Frame::Data(String::new()).render(), "data: \n\n");
}

#[test]
fn done_frame_text() {
    assert_eq!(Frame::Done.render(), "data: done\n\n");
}

#[test]
fn done_frame_reads_like_the_data_frame_of_done_only() {
    assert_eq!(Frame::Data("done".to_string()).render(), Frame::Done.render());
    assert_ne!(Frame::Data("done ".to_string()).render(), Frame::Done.render());
    assert_ne!(Frame::Data("https://done".to_string()).render(), Frame::Done.render());
}

#[test]
fn preamble_text() {
    assert_eq!(
        stream_preamble(),
        "Content-Type: text/event-stream\nCache-Control: no-cache\nConnection: keep-alive\n\n"
    );
}

#[test]
fn line_for_a_claim() {
    let claimed = result("GitHub", "https://github.com/octocat", Outcome::Claimed);
    assert_eq!(cli_line(&claimed), Some("GitHub: https://github.com/octocat".to_string()));
}

#[test]
fn no_line_for_other_outcomes() {
    assert_eq!(cli_line(&result("GitHub", "https://github.com/octocat", Outcome::NotClaimed)), None);
    assert_eq!(cli_line(&result("GitHub", "https://github.com/octocat", Outcome::Inconclusive)), None);
}

#[test]
fn frames_of_a_reaction() {
    let claim = Reaction { result: Some(result("a", "https://a/u", Outcome::Claimed)), launches: Vec::new(), finished: false };
    assert_eq!(texts(&claim), vec!["data: https://a/u\n\n"]);
    let last_claim = Reaction { result: Some(result("a", "https://a/u", Outcome::Claimed)), launches: Vec::new(), finished: true };
    assert_eq!(texts(&last_claim), vec!["data: https://a/u\n\n", "data: done\n\n"]);
    let miss = Reaction { result: Some(result("a", "https://a/u", Outcome::NotClaimed)), launches: Vec::new(), finished: false };
    assert!(texts(&miss).is_empty());
    let failure = Reaction { result: Some(result("a", "https://a/u", Outcome::Inconclusive)), launches: Vec::new(), finished: true };
    assert_eq!(texts(&failure), vec!["data: done\n\n"]);
    let start = Reaction { result: None, launches: Vec::new(), finished: false };
    assert!(texts(&start).is_empty());
    let empty = Reaction { result: None, launches: Vec::new(), finished: true };
    assert_eq!(texts(&empty), vec!["data: done\n\n"]);
}

#[test]
fn stream_ends_with_exactly_one_done_frame() {
    for n in [0usize, 1, 7, 10, 26] {
        let mut set = DescriptorSet::new();
        for i in 0..n {
            set.insert(Descriptor {
                name: format!("site{}", i),
                url_template: format!("https://site{}.example/{{}}", i),
                classification: Classification::StatusCode,
            });
        }
        let (mut scheduler, reaction) = Scheduler::start(&set, "u");
        let mut frames: Vec<Frame> = stream_frames(&reaction);
        let mut outstanding: Vec<usize> = reaction.launches.iter().map(|l| l.id).collect();
        let mut claimed_urls: Vec<String> = Vec::new();
        while !outstanding.is_empty() {
            let id = outstanding.remove(outstanding.len() / 3);
            let response = if id % 2 == 0 { ProbeResponse::Status(200) } else { ProbeResponse::Status(404) };
            let reaction = scheduler.complete(id, response).unwrap();
            for frame in stream_frames(&reaction) {
                if let Frame::Data(url) = &frame {
                    let id = (0..n).find(|&i| scheduler.target(i).unwrap().url == *url).unwrap();
                    assert!(matches!(scheduler.phase(id), Some(candela::batch::Phase::Resolved(Outcome::Claimed))));
                    claimed_urls.push(url.clone());
                }
                frames.push(frame);
            }
            outstanding.extend(reaction.launches.iter().map(|l| l.id));
        }
        let done = frames.iter().filter(|f| matches!(f, Frame::Done)).count();
        assert_eq!(done, 1);
        assert!(matches!(frames.last(), Some(Frame::Done)));
        assert_eq!(frames.len(), claimed_urls.len() + 1);
        assert_eq!(claimed_urls.len(), (n + 1) / 2);
    }
}

#[test]
fn standard_client_configuration() {
    let config = ClientConfig::standard();
    assert_eq!(REQUEST_TIMEOUT_SECS, 3);
    assert_eq!(config.timeout_secs, 3);
    let pairs: Vec<(&str, &str)> = config.headers.iter().map(|h| (h.name.as_str(), h.value.as_str())).collect();
    assert_eq!(
        pairs,
        vec![
            (
                "User-Agent",
                "Mozilla/5.0 (Windows NT 6.1) AppleWebKit/537.36 (KHTML, like Gecko) Brave Chrome/85.0.4183.121 Safari/537.36"
            ),
            ("Accept", "text/html,application/xhtml+xml,application/xml;q=0.9,*/*;q=0.8"),
            ("Accept-Language", "en-US,en;q=0.5"),
            ("Accept-Encoding", "gzip, deflate, br"),
            ("Connection", "keep-alive"),
            ("Referer", "https://www.google.com/"),
        ]
    );
}
