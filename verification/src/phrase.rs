//! Joining a sample into one output line, and producing the configured
//! number of lines.

use crate::config::Config;
use crate::sample::SampleError;
use crate::sample::is_sample_of;
use crate::sample::select_words;
use vstd::prelude::*;
use vstd::string::StringExecFns;

verus! {

/// The words of `ws` joined with single spaces.
pub open spec fn join_spaces(ws: Seq<Seq<char>>) -> Seq<char>
    decreases ws.len(),
{
    if ws.len() == 0 {
        Seq::empty()
    } else if ws.len() == 1 {
        ws[0]
    } else {
        join_spaces(ws.drop_last()) + seq![' '] + ws.last()
    }
}

/// What `str::to_lowercase` returns for the string whose characters are `s`.
pub uninterp spec fn lower_of(s: Seq<char>) -> Seq<char>;

/// Relies on `str::to_lowercase`: its result is a function of the argument's
/// characters alone, and lowercasing the empty string yields the empty
/// string.
#[verifier::external_body]
fn lowercase(s: &str) -> (r: String)
    ensures
        r@ == lower_of(s@),
        s@.len() == 0 ==> r@.len() == 0,
{
    s.to_lowercase()
}

/// The output line that a sample produces under the given case mode: the
/// words joined with spaces, lowercased unless `upcase` keeps them as they
/// are.
pub open spec fn line_for(sample: Seq<Seq<char>>, upcase: bool) -> Seq<char> {
    if upcase {
        join_spaces(sample)
    } else {
        lower_of(join_spaces(sample))
    }
}

/// A line that a well-formed draw can produce: some sample of `number`
/// distinct words from `pool` joins to it under the given case mode.
pub open spec fn is_passphrase_line(
    line: Seq<char>,
    pool: Seq<Seq<char>>,
    number: int,
    upcase: bool,
) -> bool {
    exists|s: Seq<Seq<char>>|
        is_sample_of(s, pool) && s.len() == number && line == line_for(s, upcase)
}

/// Joins `words` with single spaces.
pub fn join_words(words: &Vec<String>) -> (r: String)
    ensures
        r@ == join_spaces(words.deep_view()),
{
    let mut r = String::new();
    let mut i: usize = 0;
    proof {
        assert(words.deep_view().take(0) =~= Seq::<Seq<char>>::empty());
    }
    while i < words.len()
        invariant
            i <= words@.len(),
            r@ == join_spaces(words.deep_view().take(i as int)),
        decreases words@.len() - i,
    {
        if i > 0 {
            r.append(" ");
        }
        r.append(words[i].as_str());
        proof {
            reveal_strlit(" ");
            assert(" "@ =~= seq![' ']);
            let pre = words.deep_view().take(i as int);
            let pre1 = words.deep_view().take(i + 1);
            assert(pre1.drop_last() =~= pre);
            assert(pre1.last() == words.deep_view()[i as int]);
            assert(words.deep_view()[i as int] == words@[i as int]@);
            if i == 0 {
                assert(r@ =~= words.deep_view()[0]);
            } else {
                assert(r@ =~= join_spaces(pre) + seq![' '] + words.deep_view()[i as int]);
            }
        }
        i = i + 1;
    }
    proof {
        assert(words.deep_view().take(words.deep_view().len() as int) =~= words.deep_view());
    }
    r
}

/// Joins `words` under the given case mode: as they stand when `upcase`
/// holds, otherwise lowercased. A join with no characters stays empty either
/// way.
pub fn format_line(words: &Vec<String>, upcase: bool) -> (r: String)
    ensures
        r@ == line_for(words.deep_view(), upcase),
        join_spaces(words.deep_view()).len() == 0 ==> r@.len() == 0,
{
    let joined = join_words(words);
    if upcase {
        joined
    } else {
        lowercase(joined.as_str())
    }
}

/// Draws one fresh sample of `cfg.number` words from `words` and joins it
/// into one output line under `cfg`'s case mode. Succeeds exactly when the
/// pool holds at least `cfg.number` words; a request for zero words yields
/// the empty line.
pub fn passphrase(words: &Vec<String>, cfg: &Config) -> (r: Result<String, SampleError>)
    ensures
        r is Ok <==> cfg.number <= words@.len(),
        r is Err ==> r == Err::<String, SampleError>(SampleError::InsufficientCandidates),
        r matches Ok(line) ==> is_passphrase_line(
            line@,
            words.deep_view(),
            cfg.number as int,
            cfg.upcase,
        ),
        cfg.number == 0 ==> (r matches Ok(line) && line@.len() == 0),
{
    let sample = match select_words(words, cfg) {
        Ok(s) => s,
        Err(e) => {
            return Err(e);
        },
    };
    let line = format_line(&sample, cfg.upcase);
    proof {
        assert(is_sample_of(sample.deep_view(), words.deep_view()));
        assert(sample.deep_view().len() == cfg.number);
        if cfg.number == 0 {
            assert(sample.deep_view() =~= Seq::<Seq<char>>::empty());
        }
    }
    Ok(line)
}

/// Draws `cfg.count` lines, each from its own fresh sample. Succeeds exactly
/// when the pool holds at least `cfg.number` words; every returned line is
/// one that a well-formed draw can produce.
pub fn passphrases(words: &Vec<String>, cfg: &Config) -> (r: Result<Vec<String>, SampleError>)
    ensures
        r is Ok <==> cfg.number <= words@.len(),
        r is Err ==> r == Err::<Vec<String>, SampleError>(SampleError::InsufficientCandidates),
        r matches Ok(lines) ==> lines@.len() == cfg.count && forall|k: int|
            0 <= k < lines@.len() ==> is_passphrase_line(
                #[trigger] lines.deep_view()[k],
                words.deep_view(),
                cfg.number as int,
                cfg.upcase,
            ),
{
    if cfg.number > words.len() {
        return Err(SampleError::InsufficientCandidates);
    }
    let mut lines: Vec<String> = Vec::new();
    let mut done: usize = 0;
    while done < cfg.count
        invariant
            cfg.number <= words@.len(),
            done <= cfg.count,
            lines@.len() == done,
            forall|k: int|
                0 <= k < lines@.len() ==> is_passphrase_line(
                    (#[trigger] lines@[k])@,
                    words.deep_view(),
                    cfg.number as int,
                    cfg.upcase,
                ),
        decreases cfg.count - done,
    {
        let ghost prev = lines@;
        let line = match passphrase(words, cfg) {
            Ok(l) => l,
            Err(e) => {
                return Err(e);
            },
        };
        lines.push(line);
        proof {
            assert(forall|a: int| 0 <= a < prev.len() ==> #[trigger] lines@[a] == prev[a]);
            assert(lines@[prev.len() as int]@ == line@);
        }
        done = done + 1;
    }
    proof {
        assert(forall|k: int|
            0 <= k < lines@.len() ==> #[trigger] lines.deep_view()[k] == lines@[k]@);
    }
    Ok(lines)
}

} // verus!
