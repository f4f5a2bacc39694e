//! Laws on keeping answers and handing them out again.

use crate::config::Directive;
use crate::laws::wires;
use crate::metrics;
use crate::metrics::{Amount, Family, Sample};
use crate::plugin::cache;
use crate::plugin::cache::{CachePlugin, Held, Lifetimes, Shelf};
use crate::plugin::{Pass, Plugin, Progress, Setting, MAX_NOW};
use crate::text;
use crate::types::DnsMessage;
use crate::wire;
use vstd::prelude::*;

verus! {

/// Whether a message asks a question, told label by label.
pub open spec fn puts(
    msg: DnsMessage,
    labels: Seq<Seq<u8>>,
    kind: (u8, u8),
    class: (u8, u8),
) -> bool {
    &&& wires::labels_fit(labels)
    &&& exists|header: Seq<u8>, rest: Seq<u8>|
        header.len() == 12 && msg.raw_query@ == #[trigger] wires::query(
            header,
            labels,
            kind,
            class,
            rest,
        )
}

/// The question that a message puts is found.
proof fn lemma_puts(msg: DnsMessage, labels: Seq<Seq<u8>>, kind: (u8, u8), class: (u8, u8))
    requires
        puts(msg, labels, kind, class),
    ensures
        wire::question_bytes(msg.raw_query@) == Some(wires::question(labels, kind, class)),
        msg.raw_query@.len() >= 12,
{
    let (header, rest) = choose|header: Seq<u8>, rest: Seq<u8>|
        header.len() == 12 && msg.raw_query@ == #[trigger] wires::query(
            header,
            labels,
            kind,
            class,
            rest,
        );
    wires::law_question_is_found(header, labels, kind, class, rest);
}

/// Whether a message was answered from the cache with an answer that was kept:
/// under the identifier of the new query, and otherwise byte for byte. The
/// chain halts.
pub open spec fn handed_on(msg: DnsMessage, after: DnsMessage, kept: Seq<u8>) -> bool {
    &&& after.raw_response matches Some(r)
    &&& r@.len() == kept.len()
    &&& r@[0] == msg.raw_query@[0]
    &&& r@[1] == msg.raw_query@[1]
    &&& forall|i: int| 2 <= i < kept.len() ==> r@[i] == kept[i]
    &&& after.halt_chain
    &&& after.answered_by@ == "cache"@
    &&& after.raw_query == msg.raw_query
    &&& after.header == msg.header
    &&& after.client_addr == msg.client_addr
    &&& after.protocol == msg.protocol
    &&& after.server_port == msg.server_port
    &&& after.start_time == msg.start_time
}

/// Whether a shelf has room for one more answer, and always had.
pub open spec fn roomy(shelf: Shelf) -> bool {
    !shelf.crowded && shelf.entries.dom().finite() && shelf.entries.dom().len() < shelf.limit
}

/// A shelf with room stays uncrowded when one answer is put in.
proof fn lemma_roomy(shelf: Shelf, key: Seq<u8>, answer: (Seq<u8>, u128))
    requires
        roomy(shelf),
    ensures
        !shelf.with(key, answer).crowded,
{
    assert(shelf.entries.insert(key, answer).dom() =~= shelf.entries.dom().insert(key));
}

/// A successful answer that was just kept answers the next query with the same
/// question, whatever its name, type and class, from the moment it was kept and
/// strictly before its lifetime in seconds is over. Header and trailing bytes
/// of the two queries do not matter.
pub proof fn law_success_is_kept(
    writer: CachePlugin,
    write: Pass,
    reader: CachePlugin,
    reader_after: CachePlugin,
    read: Pass,
    progress: Progress,
    labels: Seq<Seq<u8>>,
    kind: (u8, u8),
    class: (u8, u8),
    response: Seq<u8>,
)
    requires
        writer.post_processed(write),
        write.msg.raw_response matches Some(r) && r@ == response,
        response.len() >= 4,
        response[3] % 16 == 0,
        puts(write.msg, labels, kind, class),
        roomy(write.kept.success),
        write.now <= MAX_NOW,
        reader.processed(reader_after, read, progress),
        read.kept == write.kept_after,
        puts(read.msg, labels, kind, class),
        !read.msg.halt_chain,
        read.now < write.now + writer.success_ttl * 1_000_000_000,
    ensures
        handed_on(read.msg, read.msg_after, response),
        read.kept_after == read.kept,
        progress is Passed,
{
    let key = wires::question(labels, kind, class);
    lemma_puts(write.msg, labels, kind, class);
    lemma_puts(read.msg, labels, kind, class);
    wires::law_response_code(response);
    let until = (write.now + writer.success_ttl * 1_000_000_000) as u128;
    assert(write.now + writer.success_ttl * 1_000_000_000 <= u128::MAX);
    lemma_roomy(write.kept.success, key, (response, until));
    assert(read.kept.success.entries[key] == (response, until));
}

/// A denial that was just kept answers the next query with the same question
/// before its lifetime is over, where no successful answer is kept under it;
/// so does a server failure, which has a lifetime of its own.
pub proof fn law_denial_is_kept(
    writer: CachePlugin,
    write: Pass,
    reader: CachePlugin,
    reader_after: CachePlugin,
    read: Pass,
    progress: Progress,
    labels: Seq<Seq<u8>>,
    kind: (u8, u8),
    class: (u8, u8),
    response: Seq<u8>,
)
    requires
        writer.post_processed(write),
        write.msg.raw_response matches Some(r) && r@ == response,
        response.len() >= 4,
        puts(write.msg, labels, kind, class),
        !write.kept.success.entries.contains_key(wires::question(labels, kind, class)),
        roomy(write.kept.denial),
        write.now <= MAX_NOW,
        reader.processed(reader_after, read, progress),
        read.kept == write.kept_after,
        puts(read.msg, labels, kind, class),
        !read.msg.halt_chain,
        ({
            ||| response[3] % 16 == 3 && read.now < write.now + writer.denial_ttl * 1_000_000_000
            ||| response[3] % 16 == 2 && read.now < write.now + writer.servfail_ttl
                * 1_000_000_000 && writer.servfail_ttl > 0
        }),
    ensures
        handed_on(read.msg, read.msg_after, response),
        read.kept_after == read.kept,
{
    let key = wires::question(labels, kind, class);
    lemma_puts(write.msg, labels, kind, class);
    lemma_puts(read.msg, labels, kind, class);
    wires::law_response_code(response);
    let ttl = if response[3] % 16 == 3 {
        writer.denial_ttl
    } else {
        writer.servfail_ttl
    };
    let until = (write.now + ttl * 1_000_000_000) as u128;
    assert(write.now + ttl * 1_000_000_000 <= u128::MAX);
    lemma_roomy(write.kept.denial, key, (response, until));
    assert(read.kept.denial.entries[key] == (response, until));
}

/// From the end of its lifetime on an answer is not handed out, and it is
/// thrown out of a shelf that was never too full, with every other answer left
/// in its place.
pub proof fn law_stale_answers_go(
    plugin: CachePlugin,
    after: CachePlugin,
    pass: Pass,
    progress: Progress,
    labels: Seq<Seq<u8>>,
    kind: (u8, u8),
    class: (u8, u8),
)
    requires
        plugin.processed(after, pass, progress),
        puts(pass.msg, labels, kind, class),
        !pass.msg.halt_chain,
        !pass.kept.success.crowded,
        pass.kept.success.entries.contains_key(wires::question(labels, kind, class)),
        pass.kept.success.entries[wires::question(labels, kind, class)].1 <= pass.now,
        !pass.kept.denial.entries.contains_key(wires::question(labels, kind, class)),
    ensures
        pass.msg_after == pass.msg,
        pass.kept_after.success.entries == pass.kept.success.entries.remove(
            wires::question(labels, kind, class),
        ),
        pass.kept_after.denial == pass.kept.denial,
        !pass.kept_after.success.crowded,
        pass.kept_after.success.limit == pass.kept.success.limit,
{
    lemma_puts(pass.msg, labels, kind, class);
}

/// A question under which nothing is kept finds nothing, and changes nothing.
pub proof fn law_unknown_questions_find_nothing(
    plugin: CachePlugin,
    after: CachePlugin,
    pass: Pass,
    progress: Progress,
    labels: Seq<Seq<u8>>,
    kind: (u8, u8),
    class: (u8, u8),
)
    requires
        plugin.processed(after, pass, progress),
        puts(pass.msg, labels, kind, class),
        !pass.kept.success.entries.contains_key(wires::question(labels, kind, class)),
        !pass.kept.denial.entries.contains_key(wires::question(labels, kind, class)),
    ensures
        pass.msg_after == pass.msg,
        pass.kept_after == pass.kept,
        progress is Passed,
{
    lemma_puts(pass.msg, labels, kind, class);
}

/// A message that was answered already is left alone.
pub proof fn law_halted_messages_are_left_alone(
    plugin: CachePlugin,
    after: CachePlugin,
    pass: Pass,
    progress: Progress,
)
    requires
        plugin.processed(after, pass, progress),
        pass.msg.halt_chain,
    ensures
        pass.msg_after == pass.msg,
        pass.kept_after == pass.kept,
        pass.samples_after == pass.samples,
        progress is Passed,
{
}

/// An answer with any other code is not kept, nor is a server failure without
/// a lifetime, nor anything where there is no answer.
pub proof fn law_what_is_not_kept(plugin: CachePlugin, pass: Pass)
    requires
        plugin.post_processed(pass),
        pass.msg.raw_response matches Some(r) ==> r@.len() >= 4 && r@[3] % 16 != 0 && r@[3] % 16
            != 3 && (r@[3] % 16 != 2 || plugin.servfail_ttl == 0),
    ensures
        pass.kept_after == pass.kept,
        pass.msg_after == pass.msg,
        pass.samples_after == pass.samples,
{
    if let Some(r) = pass.msg.raw_response {
        wires::law_response_code(r@);
    }
}

/// Keeping an answer touches no answer to any other question, nor the message.
pub proof fn law_keeping_touches_one_question(
    plugin: CachePlugin,
    pass: Pass,
    labels: Seq<Seq<u8>>,
    kind: (u8, u8),
    class: (u8, u8),
    other: Seq<u8>,
)
    requires
        plugin.post_processed(pass),
        puts(pass.msg, labels, kind, class),
        other != wires::question(labels, kind, class),
    ensures
        pass.msg_after == pass.msg,
        pass.kept_after.success.entries.contains_key(other)
            == pass.kept.success.entries.contains_key(other),
        pass.kept_after.success.entries[other] == pass.kept.success.entries[other],
        pass.kept_after.denial.entries.contains_key(other)
            == pass.kept.denial.entries.contains_key(other),
        pass.kept_after.denial.entries[other] == pass.kept.denial.entries[other],
        pass.kept_after.success.limit == pass.kept.success.limit,
        pass.kept_after.denial.limit == pass.kept.denial.limit,
{
    lemma_puts(pass.msg, labels, kind, class);
}

/// A new store holds nothing and has room for 50,000 answers of each kind.
pub proof fn law_new_store()
    ensures
        Held::nothing().success.entries.dom() == Set::<Seq<u8>>::empty(),
        Held::nothing().denial.entries.dom() == Set::<Seq<u8>>::empty(),
        Held::nothing().success.limit == 50_000,
        Held::nothing().denial.limit == 50_000,
        roomy(Held::nothing().success),
        roomy(Held::nothing().denial),
{
    assert(Held::nothing().success.entries.dom() =~= Set::empty());
    assert(Held::nothing().denial.entries.dom() =~= Set::empty());
}

/// A shelf is crowded once more answers were put in than it is made for, and
/// not before.
pub proof fn law_crowding(shelf: Shelf, key: Seq<u8>, answer: (Seq<u8>, u128))
    ensures
        shelf.with(key, answer).entries == shelf.entries.insert(key, answer),
        shelf.with(key, answer).limit == shelf.limit,
        shelf.with(key, answer).crowded <==> shelf.crowded || shelf.entries.insert(
            key,
            answer,
        ).dom().len() > shelf.limit,
{
}

/// The names of the options differ.
proof fn lemma_option_names()
    ensures
        "success"@[0] == 's',
        "success"@[1] == 'u',
        "denial"@[0] == 'd',
        "servfail"@[0] == 's',
        "servfail"@[1] == 'e',
{
    reveal_strlit("success");
    reveal_strlit("denial");
    reveal_strlit("servfail");
}

/// The number of seconds that an argument says, or `usual`.
pub open spec fn seconds(arg: Seq<char>, usual: u64) -> u64 {
    match text::number_of(arg, u64::MAX as int) {
        Some(n) => n as u64,
        None => usual,
    }
}

/// Answers are kept for an hour, denials for half an hour and server failures
/// for five seconds, unless the block says otherwise: the second argument of
/// `success` and `denial` and the first of `servfail`, with or without an `s`
/// behind it, are seconds. Each option sets its own lifetime only; one that
/// cannot be read sets the usual lifetime.
pub proof fn law_lifetimes(block: Seq<Directive>, d: Directive, first: Seq<char>)
    ensures
        cache::lifetimes(Seq::empty()) == (Lifetimes { success: 3600, denial: 1800, servfail: 5 }),
        ({
            let l = cache::lifetimes(block);
            let m = cache::lifetimes(block.push(d));
            &&& d.name == "success"@ && d.args.len() >= 2 ==> m == (Lifetimes {
                success: seconds(d.args[1], 3600),
                ..l
            })
            &&& d.name == "denial"@ && d.args.len() >= 2 ==> m == (Lifetimes {
                denial: seconds(d.args[1], 1800),
                ..l
            })
            &&& d.name == "servfail"@ && d.args.len() >= 1 && d.args[0] == first + seq!['s']
                ==> m == (Lifetimes { servfail: seconds(first, 5), ..l })
            &&& d.name == "servfail"@ && d.args.len() >= 1 && (d.args[0].len() == 0
                || d.args[0].last() != 's') ==> m == (Lifetimes {
                servfail: seconds(d.args[0], 5),
                ..l
            })
            &&& (d.name == "success"@ || d.name == "denial"@) && d.args.len() < 2 ==> m == l
            &&& d.name == "servfail"@ && d.args.len() == 0 ==> m == l
            &&& d.name != "success"@ && d.name != "denial"@ && d.name != "servfail"@ ==> m == l
        }),
{
    assert(block.push(d).drop_last() =~= block);
    assert(block.push(d).last() == d);
    lemma_option_names();
    assert((first + seq!['s']).last() == 's');
    assert((first + seq!['s']).drop_last() =~= first);
}

/// An answer to a query that is cut in front of the end of its question is not
/// kept.
pub proof fn law_cut_questions_are_not_kept(
    plugin: CachePlugin,
    pass: Pass,
    header: Seq<u8>,
    labels: Seq<Seq<u8>>,
    kind: (u8, u8),
    class: (u8, u8),
    len: int,
)
    requires
        plugin.post_processed(pass),
        header.len() == 12,
        wires::labels_fit(labels),
        0 <= len < 12 + wires::question(labels, kind, class).len(),
        pass.msg.raw_query@ == wires::query(header, labels, kind, class, Seq::empty()).take(len),
    ensures
        pass.kept_after == pass.kept,
        pass.msg_after == pass.msg,
{
    wires::law_cut_question_is_not_found(header, labels, kind, class, len);
}

/// A plugin has the lifetimes of its block.
pub proof fn law_configured(plugin: CachePlugin, d: Directive, shared: Setting)
    requires
        plugin.configured(d, shared),
    ensures
        plugin.success_ttl == cache::lifetimes(d.block).success,
        plugin.denial_ttl == cache::lifetimes(d.block).denial,
        plugin.servfail_ttl == cache::lifetimes(d.block).servfail,
{
}

/// The label of the listener that took a message.
pub open spec fn listener_label(msg: DnsMessage) -> Seq<char> {
    "dns://:"@ + text::decimal(
        match msg.server_port {
            Some(port) => port as nat,
            None => 53,
        },
    )
}

/// Every lookup is counted, and as either a hit of one kind or a miss: a hit
/// exactly if an answer was handed out.
pub proof fn law_lookups_are_counted(
    plugin: CachePlugin,
    after: CachePlugin,
    pass: Pass,
    progress: Progress,
)
    requires
        plugin.processed(after, pass, progress),
        !pass.msg.halt_chain,
        pass.msg.raw_query@.len() >= 12,
    ensures
        ({
            let server = listener_label(pass.msg);
            let n = pass.samples.len() as int;
            let request = Sample {
                family: Family::CacheRequests,
                labels: seq![server, ""@, "."@],
                amount: Amount::Inc,
            };
            let miss = Sample {
                family: Family::CacheMisses,
                labels: seq![server, ""@, "."@],
                amount: Amount::Inc,
            };
            let success = Sample {
                family: Family::CacheHits,
                labels: seq![server, "success"@, ""@, "."@],
                amount: Amount::Inc,
            };
            let denial = Sample {
                family: Family::CacheHits,
                labels: seq![server, "denial"@, ""@, "."@],
                amount: Amount::Inc,
            };
            ||| pass.msg_after == pass.msg && pass.samples_after == pass.samples.push(
                request,
            ).push(miss)
            ||| pass.msg_after.halt_chain && pass.samples_after == pass.samples.push(
                request,
            ).push(success)
            ||| pass.msg_after.halt_chain && pass.samples_after == pass.samples.push(
                request,
            ).push(denial)
        }),
{
    assert(metrics::server_label(pass.msg.port()) == listener_label(pass.msg));
}

/// When an answer is kept the number of answers of its kind is reported.
pub proof fn law_kept_answers_are_counted(
    plugin: CachePlugin,
    pass: Pass,
    labels: Seq<Seq<u8>>,
    kind: (u8, u8),
    class: (u8, u8),
    response: Seq<u8>,
)
    requires
        plugin.post_processed(pass),
        puts(pass.msg, labels, kind, class),
        pass.msg.raw_response matches Some(r) && r@ == response,
        response.len() >= 4,
        response[3] % 16 == 0 || response[3] % 16 == 3,
    ensures
        pass.samples_after.len() == pass.samples.len() + 1,
        pass.samples_after.drop_last() == pass.samples,
        pass.samples_after.last().family == Family::CacheEntries,
        pass.samples_after.last().labels == seq![
            listener_label(pass.msg),
            if response[3] % 16 == 0 {
                "success"@
            } else {
                "denial"@
            },
            ""@,
            "."@,
        ],
{
    lemma_puts(pass.msg, labels, kind, class);
    wires::law_response_code(response);
    assert(metrics::server_label(pass.msg.port()) == listener_label(pass.msg));
}

} // verus!
