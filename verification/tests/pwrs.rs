use pwrs::config::Config;
use pwrs::phrase::format_line;
use pwrs::phrase::passphrase;
use pwrs::phrase::passphrases;
use pwrs::sample::SampleError;
use pwrs::sample::select_words;
use pwrs::words::filter_words;
use pwrs::words::split_lines;
use pwrs::words::split_wordlist;

fn cfg(min: usize, max: usize, number: usize, count: usize, upcase: bool) -> Config {
    Config {
        min,
        max,
        number,
        count,
        filename: String::new(),
        upcase,
    }
}

fn owned(words: &[&str]) -> Vec<String> {
    words.iter().map(|w| w.to_string()).collect()
}

#[test]
fn defaults() {
    let c = Config::new();
    assert_eq!(c.min, 4);
    assert_eq!(c.max, 6);
    assert_eq!(c.number, 4);
    assert_eq!(c.count, 1);
    assert_eq!(c.filename, "/usr/share/dict/words");
    assert!(!c.upcase);
}

#[test]
fn resolve_overrides() {
    let c = Config::resolve(Some(2), Some(9), Some(5), Some(3), Some("w.txt".to_string()), true);
    assert_eq!(c.min, 2);
    assert_eq!(c.max, 9);
    assert_eq!(c.count, 5);
    assert_eq!(c.number, 3);
    assert_eq!(c.filename, "w.txt");
    assert!(c.upcase);

    let d = Config::resolve(None, None, None, None, None, false);
    assert_eq!(d.min, 4);
    assert_eq!(d.max, 6);
    assert_eq!(d.count, 1);
    assert_eq!(d.number, 4);
    assert_eq!(d.filename, "/usr/share/dict/words");
    assert!(!d.upcase);
}

#[test]
fn split_lines_matches_std() {
    let bufs = [
        "",
        "one",
        "a\nbb\r\nccc",
        "x\r",
        "trailing\n",
        "crlf at end\r\n",
        "a\n\nb",
        "\n",
        "\r\n",
        "a\r\rb\n",
    ];
    for buf in bufs {
        let ours = split_lines(buf);
        let std_lines: Vec<String> = buf.lines().map(|l| l.to_string()).collect();
        assert_eq!(ours, std_lines, "buffer {:?}", buf);
    }
}

#[test]
fn filter_bounds() {
    let buf = "a\nbb\nccc\ndddd\neeeee\n".to_string();
    let c = cfg(2, 4, 1, 1, false);
    let words = split_wordlist(&buf, &c);
    assert_eq!(words, vec!["bb".to_string(), "ccc".to_string(), "dddd".to_string()]);
    for w in &words {
        assert!(2 <= w.chars().count() && w.chars().count() <= 4);
    }
}

#[test]
fn filter_idempotent() {
    let pool = owned(&["a", "bb", "ccc", "dddd", "eeeee"]);
    let once = filter_words(&pool, 2, 4);
    let twice = filter_words(&once, 2, 4);
    assert_eq!(once, twice);
}

#[test]
fn sample_distinct_subset() {
    let pool = owned(&["alpha", "beta", "gamma", "delta", "omega"]);
    let c = cfg(1, 10, 3, 1, false);
    let sample = select_words(&pool, &c).unwrap();
    assert_eq!(sample.len(), 3);
    for w in &sample {
        assert!(pool.contains(w));
    }
    for i in 0..sample.len() {
        for j in 0..sample.len() {
            if i != j {
                assert_ne!(sample[i], sample[j]);
            }
        }
    }

    let all = cfg(1, 10, 5, 1, false);
    let mut everything = select_words(&pool, &all).unwrap();
    let mut expected = pool.clone();
    everything.sort();
    expected.sort();
    assert_eq!(everything, expected);
}

#[test]
fn empty_sample() {
    let pool = owned(&["alpha", "beta"]);
    let c = cfg(1, 10, 0, 1, false);
    let sample = select_words(&pool, &c).unwrap();
    assert!(sample.is_empty());
    let line = passphrase(&pool, &c).unwrap();
    assert_eq!(line, "");
}

#[test]
fn insufficient_candidates() {
    let pool = owned(&["alpha", "beta"]);
    let c = cfg(1, 10, 3, 1, false);
    assert_eq!(select_words(&pool, &c), Err(SampleError::InsufficientCandidates));
    assert_eq!(passphrase(&pool, &c), Err(SampleError::InsufficientCandidates));
    assert_eq!(passphrases(&pool, &c), Err(SampleError::InsufficientCandidates));

    let empty: Vec<String> = Vec::new();
    let one = cfg(1, 10, 1, 1, false);
    assert_eq!(select_words(&empty, &one), Err(SampleError::InsufficientCandidates));
}

#[test]
fn scenario_two_candidates() {
    let buf = "cat\ndog\nfrog\nlion\nwolf\n".to_string();
    let c = cfg(3, 3, 2, 1, false);
    let candidates = split_wordlist(&buf, &c);
    assert_eq!(candidates, vec!["cat".to_string(), "dog".to_string()]);
    let line = passphrase(&candidates, &c).unwrap();
    assert!(line == "cat dog" || line == "dog cat", "line was {:?}", line);
}

#[test]
fn count_three_lines() {
    let pool = owned(&["alpha", "beta", "gamma", "delta"]);
    let c = cfg(1, 10, 2, 3, false);
    let lines = passphrases(&pool, &c).unwrap();
    assert_eq!(lines.len(), 3);
    for line in &lines {
        let parts: Vec<&str> = line.split(' ').collect();
        assert_eq!(parts.len(), 2);
        for p in &parts {
            assert!(pool.iter().any(|w| w == p));
        }
        assert_ne!(parts[0], parts[1]);
    }
}

#[test]
fn upcase_preserves_case() {
    let pool = owned(&["Cat", "DOG", "fIsh"]);
    let c = cfg(1, 10, 3, 1, true);
    let line = passphrase(&pool, &c).unwrap();
    let parts: Vec<&str> = line.split(' ').collect();
    assert_eq!(parts.len(), 3);
    for p in &parts {
        assert!(pool.iter().any(|w| w == p), "word {:?} not verbatim from pool", p);
    }
}

#[test]
fn lowercase_by_default() {
    let pool = owned(&["CAT"]);
    let c = cfg(1, 10, 1, 1, false);
    let line = passphrase(&pool, &c).unwrap();
    assert_eq!(line, "cat");
}

#[test]
fn join_format() {
    let words = owned(&["cat", "dog"]);
    assert_eq!(format_line(&words, true), "cat dog");
    assert_eq!(format_line(&words, false), "cat dog");
    let mixed = owned(&["Cat", "DOG"]);
    assert_eq!(format_line(&mixed, true), "Cat DOG");
    assert_eq!(format_line(&mixed, false), "cat dog");
    let none: Vec<String> = Vec::new();
    assert_eq!(format_line(&none, false), "");
}

#[test]
fn uniform_sampling() {
    let pool = owned(&["a1", "a2", "a3", "a4", "a5"]);
    let c = cfg(1, 10, 1, 1, false);
    let trials = 5000;
    let mut counts = [0usize; 5];
    for _ in 0..trials {
        let sample = select_words(&pool, &c).unwrap();
        let at = pool.iter().position(|w| w == &sample[0]).unwrap();
        counts[at] += 1;
    }
    for (i, n) in counts.iter().enumerate() {
        assert!(
            800 <= *n && *n <= 1200,
            "candidate {} drawn {} times out of {}",
            i,
            n,
            trials
        );
    }
}
