//! The record codec: the serialized form of a task, written when a task is
//! persisted and read back when it is loaded.  The format is length-prefixed
//! text — a chunk is `<decimal length> ':' <characters>`, a record is the
//! name chunk, the decimal job count, `';'`, then a name chunk and a command
//! chunk per job — so any characters at all may appear in names and
//! commands, and the round trip is lossless: parsing a serialized task gives
//! back exactly the task, which is proved below.  Field and list lengths are
//! capped at a hundred million; a numeral at or above that cap is rejected
//! when parsing.
use crate::store::StoreError;
use crate::task::{Job, JobView, Task, TaskView};
use crate::text::{
    dec_digits, dec_value, digit_val, is_digit, is_digit_char, lemma_dec_digits_shape,
    lemma_dec_value_of_digits, lemma_dec_value_push, push_char, str_chars, string_from_chars,
    u64_to_decimal,
};
use vstd::prelude::*;

verus! {

/// A length-prefixed chunk: the decimal length, a colon, the characters.
pub open spec fn chunk_enc(s: Seq<char>) -> Seq<char> {
    dec_digits(s.len()) + seq![':'] + s
}

/// One job: its name chunk, then its command chunk.
pub open spec fn job_enc(j: JobView) -> Seq<char> {
    chunk_enc(j.name) + chunk_enc(j.command)
}

/// All jobs, in order.
pub open spec fn jobs_enc(jobs: Seq<JobView>) -> Seq<char>
    decreases jobs.len(),
{
    if jobs.len() == 0 {
        Seq::empty()
    } else {
        jobs_enc(jobs.drop_last()) + job_enc(jobs.last())
    }
}

/// The serialized form of a task.
pub open spec fn task_enc(t: TaskView) -> Seq<char> {
    chunk_enc(t.name) + dec_digits(t.jobs.len()) + seq![';'] + jobs_enc(t.jobs)
}

/// The end of the run of digit characters starting at `pos`.
pub open spec fn digit_run_end(s: Seq<char>, pos: int) -> int
    decreases s.len() - pos when 0 <= pos <= s.len()
{
    if pos < s.len() && is_digit(s[pos]) {
        digit_run_end(s, pos + 1)
    } else {
        pos
    }
}

/// A decimal numeral read at `pos`: the value of the maximal digit run, if
/// the run is non-empty and the value is below the cap.
pub open spec fn parse_dec_at(s: Seq<char>, pos: int) -> Option<(nat, int)> {
    let end = digit_run_end(s, pos);
    if end == pos {
        None
    } else if dec_value(s.subrange(pos, end)) >= 100000000 {
        None
    } else {
        Some((dec_value(s.subrange(pos, end)), end))
    }
}

/// A chunk read at `pos`: its length, a colon, then that many characters.
pub open spec fn parse_chunk_at(s: Seq<char>, pos: int) -> Option<(Seq<char>, int)> {
    match parse_dec_at(s, pos) {
        None => None,
        Some((n, p)) => if p < s.len() && s[p] == ':' && p + 1 + n <= s.len() {
            Some((s.subrange(p + 1, p + 1 + n), p + 1 + n))
        } else {
            None
        },
    }
}

/// `k` jobs read at `pos`, each a name chunk then a command chunk.
pub open spec fn parse_jobs_at(s: Seq<char>, pos: int, k: nat) -> Option<(Seq<JobView>, int)>
    decreases k,
{
    if k == 0 {
        Some((Seq::empty(), pos))
    } else {
        match parse_chunk_at(s, pos) {
            None => None,
            Some((nm, p1)) => match parse_chunk_at(s, p1) {
                None => None,
                Some((cmd, p2)) => match parse_jobs_at(s, p2, (k - 1) as nat) {
                    None => None,
                    Some((rest, p3)) => Some(
                        (seq![JobView { name: nm, command: cmd }] + rest, p3),
                    ),
                },
            },
        }
    }
}

/// The task a record denotes, if the record is well-formed: a name chunk, a
/// job count, a semicolon, exactly that many jobs, and nothing after them.
pub open spec fn parse_task(s: Seq<char>) -> Option<TaskView> {
    match parse_chunk_at(s, 0) {
        None => None,
        Some((name, p1)) => match parse_dec_at(s, p1) {
            None => None,
            Some((k, p2)) => if p2 < s.len() && s[p2] == ';' {
                match parse_jobs_at(s, p2 + 1, k) {
                    None => None,
                    Some((jobs, p3)) => if p3 == s.len() {
                        Some(TaskView { name, jobs })
                    } else {
                        None
                    },
                }
            } else {
                None
            },
        },
    }
}

/// A task the codec can write and read back: every field and the job list
/// are shorter than the length cap.
pub open spec fn encodable(t: TaskView) -> bool {
    &&& t.name.len() < 100000000
    &&& t.jobs.len() < 100000000
    &&& forall|i: int|
        0 <= i < t.jobs.len() ==> (#[trigger] t.jobs[i]).name.len() < 100000000
            && t.jobs[i].command.len() < 100000000
}

/// Appends a chunk to the output.
fn append_chunk(out: &mut String, part: &str)
    ensures
        final(out)@ == old(out)@ + chunk_enc(part@),
{
    let n = part.unicode_len();
    let numeral = u64_to_decimal(n as u64);
    out.append(numeral.as_str());
    push_char(out, ':');
    out.append(part);
    assert(final(out)@ =~= old(out)@ + chunk_enc(part@));
}

/// Writes a task in the record format: name chunk, job count, semicolon,
/// then each job's name and command chunks, in job order.
pub fn serialize_task(t: &Task) -> (s: String)
    ensures
        s@ == task_enc(t@),
{
    let mut s = String::new();
    append_chunk(&mut s, t.name.as_str());
    let count = u64_to_decimal(t.jobs.len() as u64);
    s.append(count.as_str());
    push_char(&mut s, ';');
    let ghost jobs = t@.jobs;
    let ghost head = chunk_enc(t@.name) + dec_digits(jobs.len()) + seq![';'];
    assert(s@ =~= head);
    assert(jobs_enc(jobs.subrange(0, 0)) == Seq::<char>::empty());
    assert(s@ =~= head + jobs_enc(jobs.subrange(0, 0)));
    let mut i: usize = 0;
    while i < t.jobs.len()
        invariant
            i <= jobs.len(),
            jobs == t@.jobs,
            head == chunk_enc(t@.name) + dec_digits(jobs.len()) + seq![';'],
            s@ == head + jobs_enc(jobs.subrange(0, i as int)),
        decreases jobs.len() - i,
    {
        let job = &t.jobs[i];
        assert(jobs[i as int] == job@);
        append_chunk(&mut s, job.name.as_str());
        append_chunk(&mut s, job.command.as_str());
        proof {
            let pre = jobs.subrange(0, i as int);
            let post = jobs.subrange(0, i + 1);
            assert(post.drop_last() =~= pre);
            assert(post.last() == jobs[i as int]);
            assert(jobs_enc(post) == jobs_enc(pre) + job_enc(jobs[i as int]));
            assert(s@ =~= head + jobs_enc(post));
        }
        i = i + 1;
    }
    assert(jobs.subrange(0, jobs.len() as int) =~= jobs);
    assert(s@ =~= task_enc(t@));
    s
}

/// Bounds and contents of a digit run: it starts at `pos`, stays within the
/// string, holds only digits, and ends before a non-digit.
proof fn lemma_digit_run_end(s: Seq<char>, pos: int)
    requires
        0 <= pos <= s.len(),
    ensures
        pos <= digit_run_end(s, pos) <= s.len(),
        forall|i: int| pos <= i < digit_run_end(s, pos) ==> is_digit(s[i]),
        digit_run_end(s, pos) < s.len() ==> !is_digit(s[digit_run_end(s, pos)]),
    decreases s.len() - pos,
{
    if pos < s.len() && is_digit(s[pos]) {
        lemma_digit_run_end(s, pos + 1);
    }
}

/// The digit value of a digit character, at runtime.
fn char_digit_val(c: char) -> (v: u64)
    requires
        is_digit(c),
    ensures
        v == digit_val(c),
        v < 10,
{
    if c == '0' {
        0
    } else if c == '1' {
        1
    } else if c == '2' {
        2
    } else if c == '3' {
        3
    } else if c == '4' {
        4
    } else if c == '5' {
        5
    } else if c == '6' {
        6
    } else if c == '7' {
        7
    } else if c == '8' {
        8
    } else {
        9
    }
}

/// Reads a decimal numeral, as `parse_dec_at` describes.
fn parse_dec(cs: &Vec<char>, pos: usize) -> (r: Option<(u64, usize)>)
    requires
        pos <= cs@.len(),
    ensures
        match r {
            Some((v, p)) => {
                &&& parse_dec_at(cs@, pos as int) == Some((v as nat, p as int))
                &&& pos < p <= cs@.len()
                &&& v < 100000000
            },
            None => parse_dec_at(cs@, pos as int) is None,
        },
{
    proof {
        lemma_digit_run_end(cs@, pos as int);
    }
    let ghost end = digit_run_end(cs@, pos as int);
    let mut j = pos;
    let mut acc: u64 = 0;
    assert(cs@.subrange(pos as int, pos as int) =~= Seq::<char>::empty());
    while j < cs.len() && is_digit_char(cs[j])
        invariant
            pos <= j <= cs@.len(),
            j <= end <= cs@.len(),
            digit_run_end(cs@, j as int) == end,
            ({
                let v = dec_value(cs@.subrange(pos as int, j as int));
                (v < 100000000 ==> acc == v) && (v >= 100000000 ==> acc == 100000000)
            }),
        decreases cs@.len() - j,
    {
        let d = char_digit_val(cs[j]);
        proof {
            assert(digit_run_end(cs@, j as int) == digit_run_end(cs@, j + 1));
            lemma_digit_run_end(cs@, j + 1);
            let prefix = cs@.subrange(pos as int, j as int);
            let grown = cs@.subrange(pos as int, j + 1);
            assert(grown.drop_last() =~= prefix);
            assert(grown.last() == cs@[j as int]);
            lemma_dec_value_push(prefix, cs@[j as int]);
        }
        if acc >= 100000000 {
            acc = 100000000;
        } else {
            acc = acc * 10 + d;
            if acc >= 100000000 {
                acc = 100000000;
            }
        }
        j = j + 1;
    }
    assert(j == end);
    if j == pos {
        assert(parse_dec_at(cs@, pos as int) is None);
        return None;
    }
    if acc >= 100000000 {
        assert(dec_value(cs@.subrange(pos as int, end)) >= 100000000);
        assert(parse_dec_at(cs@, pos as int) is None);
        return None;
    }
    Some((acc, j))
}

/// Reads a chunk, as `parse_chunk_at` describes.
fn parse_chunk(cs: &Vec<char>, pos: usize) -> (r: Option<(String, usize)>)
    requires
        pos <= cs@.len(),
    ensures
        match r {
            Some((c, p)) => {
                &&& parse_chunk_at(cs@, pos as int) == Some((c@, p as int))
                &&& pos < p <= cs@.len()
            },
            None => parse_chunk_at(cs@, pos as int) is None,
        },
{
    match parse_dec(cs, pos) {
        None => None,
        Some((n, p)) => {
            if p >= cs.len() {
                return None;
            }
            if cs[p] != ':' {
                return None;
            }
            let rest = cs.len() - (p + 1);
            if n > rest as u64 {
                assert(p + 1 + n as int > cs@.len());
                return None;
            }
            let len = n as usize;
            let content = string_from_chars(cs, p + 1, p + 1 + len);
            Some((content, p + 1 + len))
        },
    }
}

/// Reads a record, accepting exactly the strings `parse_task` accepts and
/// returning exactly the task it denotes; anything else is a `Parse` error.
pub fn deserialize_task(s: &str) -> (r: Result<Task, StoreError>)
    ensures
        match r {
            Ok(t) => parse_task(s@) == Some(t@),
            Err(e) => parse_task(s@) is None && e == StoreError::Parse,
        },
{
    let cs = str_chars(s);
    let name = match parse_chunk(&cs, 0) {
        None => {
            return Err(StoreError::Parse);
        },
        Some((name, p)) => (name, p),
    };
    let (name, p1) = name;
    let count = match parse_dec(&cs, p1) {
        None => {
            return Err(StoreError::Parse);
        },
        Some((k, p)) => (k, p),
    };
    let (k, p2) = count;
    if p2 >= cs.len() {
        assert(!((p2 as int) < s@.len()));
        assert(parse_task(s@) is None);
        return Err(StoreError::Parse);
    }
    if cs[p2] != ';' {
        assert(s@[p2 as int] != ';');
        assert(parse_task(s@) is None);
        return Err(StoreError::Parse);
    }
    let ghost start = p2 + 1 as int;
    let mut jobs: Vec<Job> = Vec::new();
    let mut pos: usize = p2 + 1;
    let mut remaining: u64 = k;
    proof {
        assert(jobs@.map_values(|j: Job| j@) =~= Seq::<JobView>::empty());
        match parse_jobs_at(cs@, start, k as nat) {
            Some((rest, p)) => {
                assert(Seq::<JobView>::empty() + rest =~= rest);
            },
            None => {},
        }
    }
    while remaining > 0
        invariant
            pos <= cs@.len(),
            remaining <= k,
            cs@ == s@,
            parse_chunk_at(s@, 0) == Some((name@, p1 as int)),
            parse_dec_at(s@, p1 as int) == Some((k as nat, p2 as int)),
            (p2 as int) < s@.len(),
            s@[p2 as int] == ';',
            start == p2 + 1,
            ({
                let acc = jobs@.map_values(|j: Job| j@);
                match parse_jobs_at(cs@, pos as int, remaining as nat) {
                    None => parse_jobs_at(cs@, start, k as nat) is None,
                    Some((rest, p)) => parse_jobs_at(cs@, start, k as nat) == Some(
                        (acc + rest, p),
                    ),
                }
            }),
        decreases remaining,
    {
        let jn = match parse_chunk(&cs, pos) {
            None => {
                assert(parse_jobs_at(cs@, pos as int, remaining as nat) is None);
                return Err(StoreError::Parse);
            },
            Some(x) => x,
        };
        let (job_name, pa) = jn;
        let jc = match parse_chunk(&cs, pa) {
            None => {
                assert(parse_jobs_at(cs@, pos as int, remaining as nat) is None);
                return Err(StoreError::Parse);
            },
            Some(x) => x,
        };
        let (job_command, pb) = jc;
        let ghost acc_pre = jobs@.map_values(|j: Job| j@);
        let ghost jv = JobView { name: job_name@, command: job_command@ };
        jobs.push(Job::new(job_name, job_command));
        proof {
            assert(jobs@.map_values(|j: Job| j@) =~= acc_pre.push(jv));
            match parse_jobs_at(cs@, pb as int, (remaining - 1) as nat) {
                Some((rest, p)) => {
                    assert(parse_jobs_at(cs@, pos as int, remaining as nat) == Some(
                        (seq![jv] + rest, p),
                    ));
                    assert(acc_pre + (seq![jv] + rest) =~= acc_pre.push(jv) + rest);
                },
                None => {
                    assert(parse_jobs_at(cs@, pos as int, remaining as nat) is None);
                },
            }
        }
        pos = pb;
        remaining = remaining - 1;
    }
    proof {
        let acc = jobs@.map_values(|j: Job| j@);
        assert(parse_jobs_at(cs@, pos as int, 0) == Some((Seq::<JobView>::empty(), pos as int)));
        assert(acc + Seq::<JobView>::empty() =~= acc);
        assert(parse_jobs_at(cs@, start, k as nat) == Some((acc, pos as int)));
    }
    if pos != cs.len() {
        return Err(StoreError::Parse);
    }
    let t = Task::new(name, jobs);
    assert(parse_task(s@) == Some(t@));
    Ok(t)
}

/// Unfolding a job encoding at the front: the encoding of a non-empty job
/// list is the first job's encoding followed by the rest's.
proof fn lemma_jobs_enc_first(jobs: Seq<JobView>)
    requires
        jobs.len() > 0,
    ensures
        jobs_enc(jobs) == job_enc(jobs[0]) + jobs_enc(jobs.drop_first()),
    decreases jobs.len(),
{
    if jobs.len() == 1 {
        assert(jobs.drop_last() =~= Seq::<JobView>::empty());
        assert(jobs.drop_first() =~= Seq::<JobView>::empty());
        assert(jobs_enc(jobs) == jobs_enc(jobs.drop_last()) + job_enc(jobs.last()));
        assert(Seq::<char>::empty() + job_enc(jobs[0]) =~= job_enc(jobs[0]));
        assert(job_enc(jobs[0]) + Seq::<char>::empty() =~= job_enc(jobs[0]));
    } else {
        let init = jobs.drop_last();
        lemma_jobs_enc_first(init);
        assert(init.drop_first() =~= jobs.drop_first().drop_last());
        assert(jobs.drop_first().last() == jobs.last());
        assert(jobs_enc(jobs.drop_first()) == jobs_enc(jobs.drop_first().drop_last()) + job_enc(
            jobs.drop_first().last(),
        ));
        assert(jobs_enc(jobs) == (job_enc(jobs[0]) + jobs_enc(init.drop_first())) + job_enc(
            jobs.last(),
        ));
        assert((job_enc(jobs[0]) + jobs_enc(init.drop_first())) + job_enc(jobs.last()) =~= job_enc(
            jobs[0],
        ) + (jobs_enc(init.drop_first()) + job_enc(jobs.last())));
    }
}

/// Splitting a region: if the stretch of `s` at `pos` holds `a + b`, then
/// its first part holds `a` and the rest holds `b`.
proof fn lemma_region_split(s: Seq<char>, pos: int, a: Seq<char>, b: Seq<char>)
    requires
        0 <= pos,
        pos + a.len() + b.len() <= s.len(),
        s.subrange(pos, pos + a.len() + b.len()) == a + b,
    ensures
        s.subrange(pos, pos + a.len()) == a,
        s.subrange(pos + a.len(), pos + a.len() + b.len()) == b,
{
    let whole = s.subrange(pos, pos + a.len() + b.len());
    assert(s.subrange(pos, pos + a.len()) =~= a) by {
        assert forall|i: int| 0 <= i < a.len() implies s.subrange(pos, pos + a.len())[i]
            == a[i] by {
            assert(s.subrange(pos, pos + a.len())[i] == s[pos + i]);
            assert(whole[i] == s[pos + i]);
            assert(whole[i] == (a + b)[i]);
        }
    }
    assert(s.subrange(pos + a.len(), pos + a.len() + b.len()) =~= b) by {
        assert forall|i: int| 0 <= i < b.len() implies s.subrange(
            pos + a.len(),
            pos + a.len() + b.len(),
        )[i] == b[i] by {
            assert(s.subrange(pos + a.len(), pos + a.len() + b.len())[i] == s[pos + a.len() + i]);
            assert(whole[a.len() + i] == s[pos + a.len() + i]);
            assert(whole[a.len() + i] == (a + b)[a.len() + i]);
        }
    }
}

/// A numeral written into a string parses back to its number: if the region
/// at `pos` holds the numeral of `n`, `n` is below the cap, and a non-digit
/// follows, then reading a numeral at `pos` yields exactly `n` and stops
/// right after it.
proof fn lemma_parse_dec_at_enc(s: Seq<char>, pos: int, n: nat)
    requires
        0 <= pos,
        pos + dec_digits(n).len() < s.len(),
        s.subrange(pos, pos + dec_digits(n).len()) == dec_digits(n),
        !is_digit(s[pos + dec_digits(n).len()]),
        n < 100000000,
    ensures
        parse_dec_at(s, pos) == Some((n, pos + dec_digits(n).len())),
{
    let d = dec_digits(n);
    lemma_dec_digits_shape(n);
    lemma_dec_value_of_digits(n);
    let e = pos + d.len();
    assert forall|i: int| pos <= i < e implies is_digit(s[i]) by {
        assert(s.subrange(pos, e)[i - pos] == s[i]);
        assert(is_digit(d[i - pos]));
    }
    lemma_run_end_is(s, pos, e);
    assert(digit_run_end(s, pos) == e);
    assert(s.subrange(pos, e) == d);
    assert(dec_value(s.subrange(pos, e)) == n);
}

/// If every character from `pos` to `e` is a digit and the character at `e`
/// is not, the digit run starting at `pos` ends exactly at `e`.
proof fn lemma_run_end_is(s: Seq<char>, pos: int, e: int)
    requires
        0 <= pos <= e < s.len(),
        forall|i: int| pos <= i < e ==> is_digit(s[i]),
        !is_digit(s[e]),
    ensures
        digit_run_end(s, pos) == e,
    decreases e - pos,
{
    if pos < e {
        lemma_run_end_is(s, pos + 1, e);
    }
}

/// A chunk written into a string parses back to its content: if the region
/// at `pos` holds `chunk_enc(c)`, reading a chunk at `pos` yields exactly
/// `c` and stops right after the region.
proof fn lemma_parse_chunk_at_enc(s: Seq<char>, pos: int, c: Seq<char>)
    requires
        0 <= pos,
        pos + chunk_enc(c).len() <= s.len(),
        s.subrange(pos, pos + chunk_enc(c).len()) == chunk_enc(c),
        c.len() < 100000000,
    ensures
        parse_chunk_at(s, pos) == Some((c, pos + chunk_enc(c).len())),
{
    let d = dec_digits(c.len());
    let enc = chunk_enc(c);
    lemma_dec_digits_shape(c.len());
    let head = d + seq![':'];
    assert(enc =~= head + c);
    lemma_region_split(s, pos, head, c);
    lemma_region_split(s, pos, d, seq![':']);
    let p = pos + d.len();
    assert(s[p] == ':') by {
        assert(s.subrange(p, p + 1)[0] == s[p]);
    }
    assert(!is_digit(':'));
    assert(p < s.len());
    lemma_parse_dec_at_enc(s, pos, c.len());
    assert(parse_dec_at(s, pos) == Some((c.len(), p)));
    assert(p + 1 + c.len() == pos + enc.len() <= s.len());
    assert(s.subrange(p + 1, p + 1 + c.len()) == c);
}

/// A job list written into a string parses back to itself: if the region at
/// `pos` holds `jobs_enc(jobs)` and every field is below the cap, reading
/// `jobs.len()` jobs at `pos` yields exactly `jobs` and stops right after
/// the region.
proof fn lemma_parse_jobs_at_enc(s: Seq<char>, pos: int, jobs: Seq<JobView>)
    requires
        0 <= pos,
        pos + jobs_enc(jobs).len() <= s.len(),
        s.subrange(pos, pos + jobs_enc(jobs).len()) == jobs_enc(jobs),
        forall|i: int|
            0 <= i < jobs.len() ==> (#[trigger] jobs[i]).name.len() < 100000000
                && jobs[i].command.len() < 100000000,
    ensures
        parse_jobs_at(s, pos, jobs.len()) == Some((jobs, pos + jobs_enc(jobs).len())),
    decreases jobs.len(),
{
    if jobs.len() == 0 {
        assert(parse_jobs_at(s, pos, 0) == Some((Seq::<JobView>::empty(), pos)));
        assert(jobs =~= Seq::<JobView>::empty());
    } else {
        let j0 = jobs[0];
        let rest = jobs.drop_first();
        lemma_jobs_enc_first(jobs);
        let enc = jobs_enc(jobs);
        let e0 = job_enc(j0);
        let er = jobs_enc(rest);
        assert(enc == e0 + er);
        lemma_region_split(s, pos, e0, er);
        let ca = chunk_enc(j0.name);
        let cb = chunk_enc(j0.command);
        assert(e0 == ca + cb);
        lemma_region_split(s, pos, ca, cb);
        assert(jobs[0].name.len() < 100000000 && jobs[0].command.len() < 100000000);
        lemma_parse_chunk_at_enc(s, pos, j0.name);
        let pa = pos + ca.len();
        lemma_parse_chunk_at_enc(s, pa, j0.command);
        let pb = pa + cb.len();
        assert forall|i: int| 0 <= i < rest.len() implies (#[trigger] rest[i]).name.len()
            < 100000000 && rest[i].command.len() < 100000000 by {
            assert(rest[i] == jobs[i + 1]);
        }
        lemma_parse_jobs_at_enc(s, pb, rest);
        assert(parse_chunk_at(s, pos) == Some((j0.name, pa)));
        assert(parse_chunk_at(s, pa) == Some((j0.command, pb)));
        assert(parse_jobs_at(s, pb, rest.len()) == Some((rest, pb + er.len())));
        assert((jobs.len() - 1) as nat == rest.len());
        assert(seq![JobView { name: j0.name, command: j0.command }] + rest =~= jobs);
        assert(pb + er.len() == pos + enc.len());
    }
}

/// The round trip is lossless: any encodable task, written by the record
/// format and read back, is exactly the task that was written — same name,
/// same jobs, in the same order.
pub proof fn lemma_codec_round_trip(t: TaskView)
    requires
        encodable(t),
    ensures
        parse_task(task_enc(t)) == Some(t),
{
    let s = task_enc(t);
    let ca = chunk_enc(t.name);
    let d = dec_digits(t.jobs.len());
    let ej = jobs_enc(t.jobs);
    assert(s == ca + d + seq![';'] + ej);
    assert(s.subrange(0, s.len() as int) =~= s);
    let tail = d + seq![';'] + ej;
    assert(s =~= ca + tail);
    lemma_region_split(s, 0, ca, tail);
    lemma_parse_chunk_at_enc(s, 0, t.name);
    let p1 = ca.len() as int;
    lemma_dec_digits_shape(t.jobs.len());
    let mid = d + seq![';'];
    assert(tail =~= mid + ej);
    lemma_region_split(s, p1, mid, ej);
    lemma_region_split(s, p1, d, seq![';']);
    let p2 = p1 + d.len();
    assert(s[p2] == ';') by {
        assert(s.subrange(p2, p2 + 1)[0] == s[p2]);
    }
    assert(!is_digit(';'));
    lemma_parse_dec_at_enc(s, p1, t.jobs.len());
    assert(parse_dec_at(s, p1) == Some((t.jobs.len(), p2)));
    let p3 = p2 + 1;
    lemma_parse_jobs_at_enc(s, p3, t.jobs);
    assert(parse_jobs_at(s, p3, t.jobs.len()) == Some((t.jobs, p3 + ej.len())));
    assert(p3 + ej.len() == s.len());
    assert(parse_task(s) == Some(TaskView { name: t.name, jobs: t.jobs }));
    assert(TaskView { name: t.name, jobs: t.jobs } == t);
}

} // verus!
