//! What the documents of the dashboard say.

use vstd::prelude::*;
use vstd::string::*;
use vstd::utf8::encode_utf8;

use crate::clock::Clock;
use crate::config::file::lemma_number_text;
use crate::decimal::law_signs_and_zeros;
use crate::network::dashboard::form::{body_fields, form_fields, url_decoded, value_of};
use crate::network::dashboard::json::{json_text, signed_text};
use crate::network::dashboard::message::RequestView;
use crate::network::dashboard::routes::{
    create_effect, delete_effect, detail_effect, info_text, key_effect, key_line, key_lines,
    keys_text, lemma_scanned_live, routed, update_effect, Figures,
};
use crate::network::execute::reported_memory;
use crate::network::replies::lemma_ascii;
use crate::network::report::lemma_timed_count;
use crate::storage::engine::laws::lemma_live_count;
use crate::storage::engine::model::{total_cost, EngineView};
use crate::storage::keyspace::sorted_keys;
use crate::text::{number_text, readable};

verus! {

/// Whether a document says `"name":value`, with a comma or the end of an object behind.
pub open spec fn says(text: Seq<char>, name: Seq<char>, value: Seq<char>) -> bool {
    exists|front: Seq<char>, back: Seq<char>|
        #![trigger stands(text, front, name, value, back)]
        stands(text, front, name, value, back)
}

/// Where it says so.
pub open spec fn stands(
    text: Seq<char>,
    front: Seq<char>,
    name: Seq<char>,
    value: Seq<char>,
    back: Seq<char>,
) -> bool {
    &&& text == front + (seq!['"'] + name + seq!['"', ':'] + value) + back
    &&& back.len() > 0
    &&& back[0] == ',' || back[0] == '}'
}

/// What a document says it says with more behind it.
proof fn lemma_says_more(text: Seq<char>, more: Seq<char>, name: Seq<char>, value: Seq<char>)
    requires
        says(text, name, value),
    ensures
        says(text + more, name, value),
{
    let (front, back) = choose|front: Seq<char>, back: Seq<char>|
        #![trigger stands(text, front, name, value, back)]
        stands(text, front, name, value, back);
    let said = seq!['"'] + name + seq!['"', ':'] + value;
    assert(front + said + back + more =~= front + said + (back + more));
    assert(stands(text + more, front, name, value, back + more));
}

/// A document says what stands at its end. The label may have something in front.
proof fn lemma_says(
    front: Seq<char>,
    lead: Seq<char>,
    label: Seq<char>,
    name: Seq<char>,
    value: Seq<char>,
    back: Seq<char>,
)
    requires
        label == lead + (seq!['"'] + name + seq!['"', ':']),
        back.len() > 0,
        back[0] == ',' || back[0] == '}',
    ensures
        says(front + label + value + back, name, value),
{
    let text = front + label + value + back;
    let said = seq!['"'] + name + seq!['"', ':'] + value;
    assert(text =~= (front + lead) + said + back);
    assert(stands(text, front + lead, name, value, back));
}

proof fn lemma_info_uptime_sec(s: EngineView, f: Figures, now: Clock)
    ensures
        says(info_text(s, f, now), "uptime_sec"@, number_text(f.uptime_secs as nat)),
{
    reveal(info_text);
    reveal_strlit("\",\"uptime_sec\":");
    reveal_strlit("uptime_sec");
    reveal_strlit(",\"keys\":");
    let lead = seq!['"', ','];
    let label = "\",\"uptime_sec\":"@;
    let value = number_text(f.uptime_secs as nat);
    assert(label =~= lead + (seq!['"'] + "uptime_sec"@ + seq!['"', ':']));
    let front = "{\"version\":\""@ + f.version@;
    lemma_says(front, lead, label, "uptime_sec"@, value, ",\"keys\":"@);
    let t4 = front + label + value + ",\"keys\":"@;
    let t5 = t4 + number_text(s.live_keys(sorted_keys(s.store), now).len());
    lemma_says_more(t4, number_text(s.live_keys(sorted_keys(s.store), now).len()), "uptime_sec"@, value);
    let t6 = t5 + ",\"used_memory\":"@;
    lemma_says_more(t5, ",\"used_memory\":"@, "uptime_sec"@, value);
    let t7 = t6 + number_text(reported_memory(s));
    lemma_says_more(t6, number_text(reported_memory(s)), "uptime_sec"@, value);
    let t8 = t7 + ",\"max_memory\":"@;
    lemma_says_more(t7, ",\"max_memory\":"@, "uptime_sec"@, value);
    let t9 = t8 + number_text(s.cfg.max_memory as nat);
    lemma_says_more(t8, number_text(s.cfg.max_memory as nat), "uptime_sec"@, value);
    let t10 = t9 + ",\"eviction_policy\":\""@;
    lemma_says_more(t9, ",\"eviction_policy\":\""@, "uptime_sec"@, value);
    let t11 = t10 + s.cfg.policy.wire_name();
    lemma_says_more(t10, s.cfg.policy.wire_name(), "uptime_sec"@, value);
    let t12 = t11 + "\",\"hits\":"@;
    lemma_says_more(t11, "\",\"hits\":"@, "uptime_sec"@, value);
    let t13 = t12 + number_text(s.hits as nat);
    lemma_says_more(t12, number_text(s.hits as nat), "uptime_sec"@, value);
    let t14 = t13 + ",\"misses\":"@;
    lemma_says_more(t13, ",\"misses\":"@, "uptime_sec"@, value);
    let t15 = t14 + number_text(s.misses as nat);
    lemma_says_more(t14, number_text(s.misses as nat), "uptime_sec"@, value);
    let t16 = t15 + ",\"hit_ratio\":"@;
    lemma_says_more(t15, ",\"hit_ratio\":"@, "uptime_sec"@, value);
    let t17 = t16 + f.hit_ratio@;
    lemma_says_more(t16, f.hit_ratio@, "uptime_sec"@, value);
    let t18 = t17 + ",\"ahe_alpha\":"@;
    lemma_says_more(t17, ",\"ahe_alpha\":"@, "uptime_sec"@, value);
    let t19 = t18 + f.ahe_alpha@;
    lemma_says_more(t18, f.ahe_alpha@, "uptime_sec"@, value);
    let t20 = t19 + ",\"ahe_hit_ratio\":"@;
    lemma_says_more(t19, ",\"ahe_hit_ratio\":"@, "uptime_sec"@, value);
    let t21 = t20 + f.ahe_hit_ratio@;
    lemma_says_more(t20, f.ahe_hit_ratio@, "uptime_sec"@, value);
    let t22 = t21 + ",\"expires\":"@;
    lemma_says_more(t21, ",\"expires\":"@, "uptime_sec"@, value);
    let t23 = t22 + number_text(s.timed_keys(now).len());
    lemma_says_more(t22, number_text(s.timed_keys(now).len()), "uptime_sec"@, value);
    let t24 = t23 + ",\"avg_ttl_ms\":"@;
    lemma_says_more(t23, ",\"avg_ttl_ms\":"@, "uptime_sec"@, value);
    let t25 = t24 + number_text(s.mean_ttl(now));
    lemma_says_more(t24, number_text(s.mean_ttl(now)), "uptime_sec"@, value);
    let t26 = t25 + "}"@;
    lemma_says_more(t25, "}"@, "uptime_sec"@, value);
}

proof fn lemma_info_keys(s: EngineView, f: Figures, now: Clock)
    ensures
        says(info_text(s, f, now), "keys"@, number_text(s.live_keys(sorted_keys(s.store), now).len())),
{
    reveal(info_text);
    reveal_strlit(",\"keys\":");
    reveal_strlit("keys");
    reveal_strlit(",\"used_memory\":");
    let lead = seq![','];
    let label = ",\"keys\":"@;
    let value = number_text(s.live_keys(sorted_keys(s.store), now).len());
    assert(label =~= lead + (seq!['"'] + "keys"@ + seq!['"', ':']));
    let front = "{\"version\":\""@ + f.version@ + "\",\"uptime_sec\":"@ + number_text(f.uptime_secs as nat);
    lemma_says(front, lead, label, "keys"@, value, ",\"used_memory\":"@);
    let t6 = front + label + value + ",\"used_memory\":"@;
    let t7 = t6 + number_text(reported_memory(s));
    lemma_says_more(t6, number_text(reported_memory(s)), "keys"@, value);
    let t8 = t7 + ",\"max_memory\":"@;
    lemma_says_more(t7, ",\"max_memory\":"@, "keys"@, value);
    let t9 = t8 + number_text(s.cfg.max_memory as nat);
    lemma_says_more(t8, number_text(s.cfg.max_memory as nat), "keys"@, value);
    let t10 = t9 + ",\"eviction_policy\":\""@;
    lemma_says_more(t9, ",\"eviction_policy\":\""@, "keys"@, value);
    let t11 = t10 + s.cfg.policy.wire_name();
    lemma_says_more(t10, s.cfg.policy.wire_name(), "keys"@, value);
    let t12 = t11 + "\",\"hits\":"@;
    lemma_says_more(t11, "\",\"hits\":"@, "keys"@, value);
    let t13 = t12 + number_text(s.hits as nat);
    lemma_says_more(t12, number_text(s.hits as nat), "keys"@, value);
    let t14 = t13 + ",\"misses\":"@;
    lemma_says_more(t13, ",\"misses\":"@, "keys"@, value);
    let t15 = t14 + number_text(s.misses as nat);
    lemma_says_more(t14, number_text(s.misses as nat), "keys"@, value);
    let t16 = t15 + ",\"hit_ratio\":"@;
    lemma_says_more(t15, ",\"hit_ratio\":"@, "keys"@, value);
    let t17 = t16 + f.hit_ratio@;
    lemma_says_more(t16, f.hit_ratio@, "keys"@, value);
    let t18 = t17 + ",\"ahe_alpha\":"@;
    lemma_says_more(t17, ",\"ahe_alpha\":"@, "keys"@, value);
    let t19 = t18 + f.ahe_alpha@;
    lemma_says_more(t18, f.ahe_alpha@, "keys"@, value);
    let t20 = t19 + ",\"ahe_hit_ratio\":"@;
    lemma_says_more(t19, ",\"ahe_hit_ratio\":"@, "keys"@, value);
    let t21 = t20 + f.ahe_hit_ratio@;
    lemma_says_more(t20, f.ahe_hit_ratio@, "keys"@, value);
    let t22 = t21 + ",\"expires\":"@;
    lemma_says_more(t21, ",\"expires\":"@, "keys"@, value);
    let t23 = t22 + number_text(s.timed_keys(now).len());
    lemma_says_more(t22, number_text(s.timed_keys(now).len()), "keys"@, value);
    let t24 = t23 + ",\"avg_ttl_ms\":"@;
    lemma_says_more(t23, ",\"avg_ttl_ms\":"@, "keys"@, value);
    let t25 = t24 + number_text(s.mean_ttl(now));
    lemma_says_more(t24, number_text(s.mean_ttl(now)), "keys"@, value);
    let t26 = t25 + "}"@;
    lemma_says_more(t25, "}"@, "keys"@, value);
}

proof fn lemma_info_used_memory(s: EngineView, f: Figures, now: Clock)
    ensures
        says(info_text(s, f, now), "used_memory"@, number_text(reported_memory(s))),
{
    reveal(info_text);
    reveal_strlit(",\"used_memory\":");
    reveal_strlit("used_memory");
    reveal_strlit(",\"max_memory\":");
    let lead = seq![','];
    let label = ",\"used_memory\":"@;
    let value = number_text(reported_memory(s));
    assert(label =~= lead + (seq!['"'] + "used_memory"@ + seq!['"', ':']));
    let front = "{\"version\":\""@ + f.version@ + "\",\"uptime_sec\":"@ + number_text(f.uptime_secs as nat) + ",\"keys\":"@ + number_text(s.live_keys(sorted_keys(s.store), now).len());
    lemma_says(front, lead, label, "used_memory"@, value, ",\"max_memory\":"@);
    let t8 = front + label + value + ",\"max_memory\":"@;
    let t9 = t8 + number_text(s.cfg.max_memory as nat);
    lemma_says_more(t8, number_text(s.cfg.max_memory as nat), "used_memory"@, value);
    let t10 = t9 + ",\"eviction_policy\":\""@;
    lemma_says_more(t9, ",\"eviction_policy\":\""@, "used_memory"@, value);
    let t11 = t10 + s.cfg.policy.wire_name();
    lemma_says_more(t10, s.cfg.policy.wire_name(), "used_memory"@, value);
    let t12 = t11 + "\",\"hits\":"@;
    lemma_says_more(t11, "\",\"hits\":"@, "used_memory"@, value);
    let t13 = t12 + number_text(s.hits as nat);
    lemma_says_more(t12, number_text(s.hits as nat), "used_memory"@, value);
    let t14 = t13 + ",\"misses\":"@;
    lemma_says_more(t13, ",\"misses\":"@, "used_memory"@, value);
    let t15 = t14 + number_text(s.misses as nat);
    lemma_says_more(t14, number_text(s.misses as nat), "used_memory"@, value);
    let t16 = t15 + ",\"hit_ratio\":"@;
    lemma_says_more(t15, ",\"hit_ratio\":"@, "used_memory"@, value);
    let t17 = t16 + f.hit_ratio@;
    lemma_says_more(t16, f.hit_ratio@, "used_memory"@, value);
    let t18 = t17 + ",\"ahe_alpha\":"@;
    lemma_says_more(t17, ",\"ahe_alpha\":"@, "used_memory"@, value);
    let t19 = t18 + f.ahe_alpha@;
    lemma_says_more(t18, f.ahe_alpha@, "used_memory"@, value);
    let t20 = t19 + ",\"ahe_hit_ratio\":"@;
    lemma_says_more(t19, ",\"ahe_hit_ratio\":"@, "used_memory"@, value);
    let t21 = t20 + f.ahe_hit_ratio@;
    lemma_says_more(t20, f.ahe_hit_ratio@, "used_memory"@, value);
    let t22 = t21 + ",\"expires\":"@;
    lemma_says_more(t21, ",\"expires\":"@, "used_memory"@, value);
    let t23 = t22 + number_text(s.timed_keys(now).len());
    lemma_says_more(t22, number_text(s.timed_keys(now).len()), "used_memory"@, value);
    let t24 = t23 + ",\"avg_ttl_ms\":"@;
    lemma_says_more(t23, ",\"avg_ttl_ms\":"@, "used_memory"@, value);
    let t25 = t24 + number_text(s.mean_ttl(now));
    lemma_says_more(t24, number_text(s.mean_ttl(now)), "used_memory"@, value);
    let t26 = t25 + "}"@;
    lemma_says_more(t25, "}"@, "used_memory"@, value);
}

proof fn lemma_info_max_memory(s: EngineView, f: Figures, now: Clock)
    ensures
        says(info_text(s, f, now), "max_memory"@, number_text(s.cfg.max_memory as nat)),
{
    reveal(info_text);
    reveal_strlit(",\"max_memory\":");
    reveal_strlit("max_memory");
    reveal_strlit(",\"eviction_policy\":\"");
    let lead = seq![','];
    let label = ",\"max_memory\":"@;
    let value = number_text(s.cfg.max_memory as nat);
    assert(label =~= lead + (seq!['"'] + "max_memory"@ + seq!['"', ':']));
    let front = "{\"version\":\""@ + f.version@ + "\",\"uptime_sec\":"@ + number_text(f.uptime_secs as nat) + ",\"keys\":"@ + number_text(s.live_keys(sorted_keys(s.store), now).len()) + ",\"used_memory\":"@ + number_text(reported_memory(s));
    lemma_says(front, lead, label, "max_memory"@, value, ",\"eviction_policy\":\""@);
    let t10 = front + label + value + ",\"eviction_policy\":\""@;
    let t11 = t10 + s.cfg.policy.wire_name();
    lemma_says_more(t10, s.cfg.policy.wire_name(), "max_memory"@, value);
    let t12 = t11 + "\",\"hits\":"@;
    lemma_says_more(t11, "\",\"hits\":"@, "max_memory"@, value);
    let t13 = t12 + number_text(s.hits as nat);
    lemma_says_more(t12, number_text(s.hits as nat), "max_memory"@, value);
    let t14 = t13 + ",\"misses\":"@;
    lemma_says_more(t13, ",\"misses\":"@, "max_memory"@, value);
    let t15 = t14 + number_text(s.misses as nat);
    lemma_says_more(t14, number_text(s.misses as nat), "max_memory"@, value);
    let t16 = t15 + ",\"hit_ratio\":"@;
    lemma_says_more(t15, ",\"hit_ratio\":"@, "max_memory"@, value);
    let t17 = t16 + f.hit_ratio@;
    lemma_says_more(t16, f.hit_ratio@, "max_memory"@, value);
    let t18 = t17 + ",\"ahe_alpha\":"@;
    lemma_says_more(t17, ",\"ahe_alpha\":"@, "max_memory"@, value);
    let t19 = t18 + f.ahe_alpha@;
    lemma_says_more(t18, f.ahe_alpha@, "max_memory"@, value);
    let t20 = t19 + ",\"ahe_hit_ratio\":"@;
    lemma_says_more(t19, ",\"ahe_hit_ratio\":"@, "max_memory"@, value);
    let t21 = t20 + f.ahe_hit_ratio@;
    lemma_says_more(t20, f.ahe_hit_ratio@, "max_memory"@, value);
    let t22 = t21 + ",\"expires\":"@;
    lemma_says_more(t21, ",\"expires\":"@, "max_memory"@, value);
    let t23 = t22 + number_text(s.timed_keys(now).len());
    lemma_says_more(t22, number_text(s.timed_keys(now).len()), "max_memory"@, value);
    let t24 = t23 + ",\"avg_ttl_ms\":"@;
    lemma_says_more(t23, ",\"avg_ttl_ms\":"@, "max_memory"@, value);
    let t25 = t24 + number_text(s.mean_ttl(now));
    lemma_says_more(t24, number_text(s.mean_ttl(now)), "max_memory"@, value);
    let t26 = t25 + "}"@;
    lemma_says_more(t25, "}"@, "max_memory"@, value);
}

proof fn lemma_info_hits(s: EngineView, f: Figures, now: Clock)
    ensures
        says(info_text(s, f, now), "hits"@, number_text(s.hits as nat)),
{
    reveal(info_text);
    reveal_strlit("\",\"hits\":");
    reveal_strlit("hits");
    reveal_strlit(",\"misses\":");
    let lead = seq!['"', ','];
    let label = "\",\"hits\":"@;
    let value = number_text(s.hits as nat);
    assert(label =~= lead + (seq!['"'] + "hits"@ + seq!['"', ':']));
    let front = "{\"version\":\""@ + f.version@ + "\",\"uptime_sec\":"@ + number_text(f.uptime_secs as nat) + ",\"keys\":"@ + number_text(s.live_keys(sorted_keys(s.store), now).len()) + ",\"used_memory\":"@ + number_text(reported_memory(s)) + ",\"max_memory\":"@ + number_text(s.cfg.max_memory as nat) + ",\"eviction_policy\":\""@ + s.cfg.policy.wire_name();
    lemma_says(front, lead, label, "hits"@, value, ",\"misses\":"@);
    let t14 = front + label + value + ",\"misses\":"@;
    let t15 = t14 + number_text(s.misses as nat);
    lemma_says_more(t14, number_text(s.misses as nat), "hits"@, value);
    let t16 = t15 + ",\"hit_ratio\":"@;
    lemma_says_more(t15, ",\"hit_ratio\":"@, "hits"@, value);
    let t17 = t16 + f.hit_ratio@;
    lemma_says_more(t16, f.hit_ratio@, "hits"@, value);
    let t18 = t17 + ",\"ahe_alpha\":"@;
    lemma_says_more(t17, ",\"ahe_alpha\":"@, "hits"@, value);
    let t19 = t18 + f.ahe_alpha@;
    lemma_says_more(t18, f.ahe_alpha@, "hits"@, value);
    let t20 = t19 + ",\"ahe_hit_ratio\":"@;
    lemma_says_more(t19, ",\"ahe_hit_ratio\":"@, "hits"@, value);
    let t21 = t20 + f.ahe_hit_ratio@;
    lemma_says_more(t20, f.ahe_hit_ratio@, "hits"@, value);
    let t22 = t21 + ",\"expires\":"@;
    lemma_says_more(t21, ",\"expires\":"@, "hits"@, value);
    let t23 = t22 + number_text(s.timed_keys(now).len());
    lemma_says_more(t22, number_text(s.timed_keys(now).len()), "hits"@, value);
    let t24 = t23 + ",\"avg_ttl_ms\":"@;
    lemma_says_more(t23, ",\"avg_ttl_ms\":"@, "hits"@, value);
    let t25 = t24 + number_text(s.mean_ttl(now));
    lemma_says_more(t24, number_text(s.mean_ttl(now)), "hits"@, value);
    let t26 = t25 + "}"@;
    lemma_says_more(t25, "}"@, "hits"@, value);
}

proof fn lemma_info_misses(s: EngineView, f: Figures, now: Clock)
    ensures
        says(info_text(s, f, now), "misses"@, number_text(s.misses as nat)),
{
    reveal(info_text);
    reveal_strlit(",\"misses\":");
    reveal_strlit("misses");
    reveal_strlit(",\"hit_ratio\":");
    let lead = seq![','];
    let label = ",\"misses\":"@;
    let value = number_text(s.misses as nat);
    assert(label =~= lead + (seq!['"'] + "misses"@ + seq!['"', ':']));
    let front = "{\"version\":\""@ + f.version@ + "\",\"uptime_sec\":"@ + number_text(f.uptime_secs as nat) + ",\"keys\":"@ + number_text(s.live_keys(sorted_keys(s.store), now).len()) + ",\"used_memory\":"@ + number_text(reported_memory(s)) + ",\"max_memory\":"@ + number_text(s.cfg.max_memory as nat) + ",\"eviction_policy\":\""@ + s.cfg.policy.wire_name() + "\",\"hits\":"@ + number_text(s.hits as nat);
    lemma_says(front, lead, label, "misses"@, value, ",\"hit_ratio\":"@);
    let t16 = front + label + value + ",\"hit_ratio\":"@;
    let t17 = t16 + f.hit_ratio@;
    lemma_says_more(t16, f.hit_ratio@, "misses"@, value);
    let t18 = t17 + ",\"ahe_alpha\":"@;
    lemma_says_more(t17, ",\"ahe_alpha\":"@, "misses"@, value);
    let t19 = t18 + f.ahe_alpha@;
    lemma_says_more(t18, f.ahe_alpha@, "misses"@, value);
    let t20 = t19 + ",\"ahe_hit_ratio\":"@;
    lemma_says_more(t19, ",\"ahe_hit_ratio\":"@, "misses"@, value);
    let t21 = t20 + f.ahe_hit_ratio@;
    lemma_says_more(t20, f.ahe_hit_ratio@, "misses"@, value);
    let t22 = t21 + ",\"expires\":"@;
    lemma_says_more(t21, ",\"expires\":"@, "misses"@, value);
    let t23 = t22 + number_text(s.timed_keys(now).len());
    lemma_says_more(t22, number_text(s.timed_keys(now).len()), "misses"@, value);
    let t24 = t23 + ",\"avg_ttl_ms\":"@;
    lemma_says_more(t23, ",\"avg_ttl_ms\":"@, "misses"@, value);
    let t25 = t24 + number_text(s.mean_ttl(now));
    lemma_says_more(t24, number_text(s.mean_ttl(now)), "misses"@, value);
    let t26 = t25 + "}"@;
    lemma_says_more(t25, "}"@, "misses"@, value);
}

proof fn lemma_info_hit_ratio(s: EngineView, f: Figures, now: Clock)
    ensures
        says(info_text(s, f, now), "hit_ratio"@, f.hit_ratio@),
{
    reveal(info_text);
    reveal_strlit(",\"hit_ratio\":");
    reveal_strlit("hit_ratio");
    reveal_strlit(",\"ahe_alpha\":");
    let lead = seq![','];
    let label = ",\"hit_ratio\":"@;
    let value = f.hit_ratio@;
    assert(label =~= lead + (seq!['"'] + "hit_ratio"@ + seq!['"', ':']));
    let front = "{\"version\":\""@ + f.version@ + "\",\"uptime_sec\":"@ + number_text(f.uptime_secs as nat) + ",\"keys\":"@ + number_text(s.live_keys(sorted_keys(s.store), now).len()) + ",\"used_memory\":"@ + number_text(reported_memory(s)) + ",\"max_memory\":"@ + number_text(s.cfg.max_memory as nat) + ",\"eviction_policy\":\""@ + s.cfg.policy.wire_name() + "\",\"hits\":"@ + number_text(s.hits as nat) + ",\"misses\":"@ + number_text(s.misses as nat);
    lemma_says(front, lead, label, "hit_ratio"@, value, ",\"ahe_alpha\":"@);
    let t18 = front + label + value + ",\"ahe_alpha\":"@;
    let t19 = t18 + f.ahe_alpha@;
    lemma_says_more(t18, f.ahe_alpha@, "hit_ratio"@, value);
    let t20 = t19 + ",\"ahe_hit_ratio\":"@;
    lemma_says_more(t19, ",\"ahe_hit_ratio\":"@, "hit_ratio"@, value);
    let t21 = t20 + f.ahe_hit_ratio@;
    lemma_says_more(t20, f.ahe_hit_ratio@, "hit_ratio"@, value);
    let t22 = t21 + ",\"expires\":"@;
    lemma_says_more(t21, ",\"expires\":"@, "hit_ratio"@, value);
    let t23 = t22 + number_text(s.timed_keys(now).len());
    lemma_says_more(t22, number_text(s.timed_keys(now).len()), "hit_ratio"@, value);
    let t24 = t23 + ",\"avg_ttl_ms\":"@;
    lemma_says_more(t23, ",\"avg_ttl_ms\":"@, "hit_ratio"@, value);
    let t25 = t24 + number_text(s.mean_ttl(now));
    lemma_says_more(t24, number_text(s.mean_ttl(now)), "hit_ratio"@, value);
    let t26 = t25 + "}"@;
    lemma_says_more(t25, "}"@, "hit_ratio"@, value);
}

proof fn lemma_info_ahe_alpha(s: EngineView, f: Figures, now: Clock)
    ensures
        says(info_text(s, f, now), "ahe_alpha"@, f.ahe_alpha@),
{
    reveal(info_text);
    reveal_strlit(",\"ahe_alpha\":");
    reveal_strlit("ahe_alpha");
    reveal_strlit(",\"ahe_hit_ratio\":");
    let lead = seq![','];
    let label = ",\"ahe_alpha\":"@;
    let value = f.ahe_alpha@;
    assert(label =~= lead + (seq!['"'] + "ahe_alpha"@ + seq!['"', ':']));
    let front = "{\"version\":\""@ + f.version@ + "\",\"uptime_sec\":"@ + number_text(f.uptime_secs as nat) + ",\"keys\":"@ + number_text(s.live_keys(sorted_keys(s.store), now).len()) + ",\"used_memory\":"@ + number_text(reported_memory(s)) + ",\"max_memory\":"@ + number_text(s.cfg.max_memory as nat) + ",\"eviction_policy\":\""@ + s.cfg.policy.wire_name() + "\",\"hits\":"@ + number_text(s.hits as nat) + ",\"misses\":"@ + number_text(s.misses as nat) + ",\"hit_ratio\":"@ + f.hit_ratio@;
    lemma_says(front, lead, label, "ahe_alpha"@, value, ",\"ahe_hit_ratio\":"@);
    let t20 = front + label + value + ",\"ahe_hit_ratio\":"@;
    let t21 = t20 + f.ahe_hit_ratio@;
    lemma_says_more(t20, f.ahe_hit_ratio@, "ahe_alpha"@, value);
    let t22 = t21 + ",\"expires\":"@;
    lemma_says_more(t21, ",\"expires\":"@, "ahe_alpha"@, value);
    let t23 = t22 + number_text(s.timed_keys(now).len());
    lemma_says_more(t22, number_text(s.timed_keys(now).len()), "ahe_alpha"@, value);
    let t24 = t23 + ",\"avg_ttl_ms\":"@;
    lemma_says_more(t23, ",\"avg_ttl_ms\":"@, "ahe_alpha"@, value);
    let t25 = t24 + number_text(s.mean_ttl(now));
    lemma_says_more(t24, number_text(s.mean_ttl(now)), "ahe_alpha"@, value);
    let t26 = t25 + "}"@;
    lemma_says_more(t25, "}"@, "ahe_alpha"@, value);
}

proof fn lemma_info_ahe_hit_ratio(s: EngineView, f: Figures, now: Clock)
    ensures
        says(info_text(s, f, now), "ahe_hit_ratio"@, f.ahe_hit_ratio@),
{
    reveal(info_text);
    reveal_strlit(",\"ahe_hit_ratio\":");
    reveal_strlit("ahe_hit_ratio");
    reveal_strlit(",\"expires\":");
    let lead = seq![','];
    let label = ",\"ahe_hit_ratio\":"@;
    let value = f.ahe_hit_ratio@;
    assert(label =~= lead + (seq!['"'] + "ahe_hit_ratio"@ + seq!['"', ':']));
    let front = "{\"version\":\""@ + f.version@ + "\",\"uptime_sec\":"@ + number_text(f.uptime_secs as nat) + ",\"keys\":"@ + number_text(s.live_keys(sorted_keys(s.store), now).len()) + ",\"used_memory\":"@ + number_text(reported_memory(s)) + ",\"max_memory\":"@ + number_text(s.cfg.max_memory as nat) + ",\"eviction_policy\":\""@ + s.cfg.policy.wire_name() + "\",\"hits\":"@ + number_text(s.hits as nat) + ",\"misses\":"@ + number_text(s.misses as nat) + ",\"hit_ratio\":"@ + f.hit_ratio@ + ",\"ahe_alpha\":"@ + f.ahe_alpha@;
    lemma_says(front, lead, label, "ahe_hit_ratio"@, value, ",\"expires\":"@);
    let t22 = front + label + value + ",\"expires\":"@;
    let t23 = t22 + number_text(s.timed_keys(now).len());
    lemma_says_more(t22, number_text(s.timed_keys(now).len()), "ahe_hit_ratio"@, value);
    let t24 = t23 + ",\"avg_ttl_ms\":"@;
    lemma_says_more(t23, ",\"avg_ttl_ms\":"@, "ahe_hit_ratio"@, value);
    let t25 = t24 + number_text(s.mean_ttl(now));
    lemma_says_more(t24, number_text(s.mean_ttl(now)), "ahe_hit_ratio"@, value);
    let t26 = t25 + "}"@;
    lemma_says_more(t25, "}"@, "ahe_hit_ratio"@, value);
}

proof fn lemma_info_expires(s: EngineView, f: Figures, now: Clock)
    ensures
        says(info_text(s, f, now), "expires"@, number_text(s.timed_keys(now).len())),
{
    reveal(info_text);
    reveal_strlit(",\"expires\":");
    reveal_strlit("expires");
    reveal_strlit(",\"avg_ttl_ms\":");
    let lead = seq![','];
    let label = ",\"expires\":"@;
    let value = number_text(s.timed_keys(now).len());
    assert(label =~= lead + (seq!['"'] + "expires"@ + seq!['"', ':']));
    let front = "{\"version\":\""@ + f.version@ + "\",\"uptime_sec\":"@ + number_text(f.uptime_secs as nat) + ",\"keys\":"@ + number_text(s.live_keys(sorted_keys(s.store), now).len()) + ",\"used_memory\":"@ + number_text(reported_memory(s)) + ",\"max_memory\":"@ + number_text(s.cfg.max_memory as nat) + ",\"eviction_policy\":\""@ + s.cfg.policy.wire_name() + "\",\"hits\":"@ + number_text(s.hits as nat) + ",\"misses\":"@ + number_text(s.misses as nat) + ",\"hit_ratio\":"@ + f.hit_ratio@ + ",\"ahe_alpha\":"@ + f.ahe_alpha@ + ",\"ahe_hit_ratio\":"@ + f.ahe_hit_ratio@;
    lemma_says(front, lead, label, "expires"@, value, ",\"avg_ttl_ms\":"@);
    let t24 = front + label + value + ",\"avg_ttl_ms\":"@;
    let t25 = t24 + number_text(s.mean_ttl(now));
    lemma_says_more(t24, number_text(s.mean_ttl(now)), "expires"@, value);
    let t26 = t25 + "}"@;
    lemma_says_more(t25, "}"@, "expires"@, value);
}

proof fn lemma_info_avg_ttl_ms(s: EngineView, f: Figures, now: Clock)
    ensures
        says(info_text(s, f, now), "avg_ttl_ms"@, number_text(s.mean_ttl(now))),
{
    reveal(info_text);
    reveal_strlit(",\"avg_ttl_ms\":");
    reveal_strlit("avg_ttl_ms");
    reveal_strlit("}");
    let lead = seq![','];
    let label = ",\"avg_ttl_ms\":"@;
    let value = number_text(s.mean_ttl(now));
    assert(label =~= lead + (seq!['"'] + "avg_ttl_ms"@ + seq!['"', ':']));
    let front = "{\"version\":\""@ + f.version@ + "\",\"uptime_sec\":"@ + number_text(f.uptime_secs as nat) + ",\"keys\":"@ + number_text(s.live_keys(sorted_keys(s.store), now).len()) + ",\"used_memory\":"@ + number_text(reported_memory(s)) + ",\"max_memory\":"@ + number_text(s.cfg.max_memory as nat) + ",\"eviction_policy\":\""@ + s.cfg.policy.wire_name() + "\",\"hits\":"@ + number_text(s.hits as nat) + ",\"misses\":"@ + number_text(s.misses as nat) + ",\"hit_ratio\":"@ + f.hit_ratio@ + ",\"ahe_alpha\":"@ + f.ahe_alpha@ + ",\"ahe_hit_ratio\":"@ + f.ahe_hit_ratio@ + ",\"expires\":"@ + number_text(s.timed_keys(now).len());
    lemma_says(front, lead, label, "avg_ttl_ms"@, value, "}"@);
    let t26 = front + label + value + "}"@;
}

/// The figures say how many keys are live and how many of them have a deadline, what the
/// store is charged with and its limit, how many reads found a key and how many did not,
/// and the mean lifetime.
pub proof fn law_figures(s: EngineView, f: Figures, now: Clock)
    requires
        s.store.dom().finite(),
    ensures
        ({
            let text = info_text(s, f, now);
            &&& says(text, "uptime_sec"@, number_text(f.uptime_secs as nat))
            &&& says(
                text,
                "keys"@,
                number_text(s.store.dom().filter(|k: Seq<u8>| s.live(k, now)).len()),
            )
            &&& 0 <= total_cost(s.store) <= u64::MAX ==> says(
                text,
                "used_memory"@,
                number_text(total_cost(s.store) as nat),
            )
            &&& says(text, "max_memory"@, number_text(s.cfg.max_memory as nat))
            &&& says(text, "hits"@, number_text(s.hits as nat))
            &&& says(text, "misses"@, number_text(s.misses as nat))
            &&& says(text, "hit_ratio"@, f.hit_ratio@)
            &&& says(text, "ahe_alpha"@, f.ahe_alpha@)
            &&& says(text, "ahe_hit_ratio"@, f.ahe_hit_ratio@)
            &&& says(
                text,
                "expires"@,
                number_text(
                    s.store.dom().filter(
                        |k: Seq<u8>| s.live(k, now) && s.store[k].expire_at is Some,
                    ).len(),
                ),
            )
            &&& says(text, "avg_ttl_ms"@, number_text(s.mean_ttl(now)))
        }),
{
    lemma_live_count(s, now);
    lemma_timed_count(s, now);
    lemma_info_uptime_sec(s, f, now);
    lemma_info_keys(s, f, now);
    lemma_info_used_memory(s, f, now);
    lemma_info_max_memory(s, f, now);
    lemma_info_hits(s, f, now);
    lemma_info_misses(s, f, now);
    lemma_info_hit_ratio(s, f, now);
    lemma_info_ahe_alpha(s, f, now);
    lemma_info_ahe_hit_ratio(s, f, now);
    lemma_info_expires(s, f, now);
    lemma_info_avg_ttl_ms(s, f, now);
}

/// What a list of keys says of one: its name, and the whole milliseconds until its
/// deadline or `-1`.
pub open spec fn said_key(s: EngineView, key: Seq<u8>, now: Clock) -> Seq<char> {
    "{\"key\":"@ + json_text(readable(key)) + ",\"type\":\"string\",\"ttl_ms\":"@ + signed_text(
        match s.store[key].expire_at {
            Some(deadline) => (deadline - now.mono_ns) / 1_000_000,
            None => -1,
        },
    ) + "}"@
}

/// A list of keys in order, with commas between them.
pub open spec fn said_keys(s: EngineView, keys: Seq<Seq<u8>>, now: Clock) -> Seq<char>
    decreases keys.len(),
{
    if keys.len() == 0 {
        Seq::empty()
    } else if keys.len() == 1 {
        said_key(s, keys[0], now)
    } else {
        said_key(s, keys[0], now) + ","@ + said_keys(s, keys.skip(1), now)
    }
}

proof fn lemma_said_last(s: EngineView, keys: Seq<Seq<u8>>, now: Clock)
    requires
        keys.len() > 1,
    ensures
        said_keys(s, keys, now) == said_keys(s, keys.drop_last(), now) + ","@ + said_key(
            s,
            keys.last(),
            now,
        ),
    decreases keys.len(),
{
    let rest = keys.skip(1);
    if keys.len() == 2 {
        assert(rest.len() == 1 && rest[0] == keys.last());
        reveal_with_fuel(said_keys, 2);
    } else {
        lemma_said_last(s, rest, now);
        assert(rest.drop_last() =~= keys.drop_last().skip(1));
        let first = said_key(s, keys[0], now) + ","@;
        let middle = said_keys(s, rest.drop_last(), now);
        let last = said_key(s, keys.last(), now);
        assert(first + (middle + ","@ + last) =~= (first + middle) + ","@ + last);
    }
}

proof fn lemma_said_keys(s: EngineView, keys: Seq<Seq<u8>>, now: Clock)
    requires
        forall|i: int|
            0 <= i < keys.len() ==> s.live(#[trigger] keys[i], now) && (
            s.store[keys[i]].expire_at matches Some(d) ==> d - now.mono_ns
                < 0x7fff_ffff_ffff_ffff),
    ensures
        key_lines(s, keys, now) == said_keys(s, keys, now),
    decreases keys.len(),
{
    if keys.len() > 0 {
        assert(key_line(s, keys.last(), now) == said_key(s, keys.last(), now));
        if keys.len() > 1 {
            lemma_said_keys(s, keys.drop_last(), now);
            lemma_said_last(s, keys, now);
        }
    }
}

/// A page lists the keys that a scan finds, from the offset on and at most as many as the
/// limit says, and tells how many there are in all.
pub proof fn law_page_of_keys(
    s: EngineView,
    query: Seq<char>,
    filter: Seq<char>,
    offset: usize,
    limit: usize,
    now: Clock,
)
    requires
        value_of(form_fields(encode_utf8(query)), "filter"@) == Some(filter),
        value_of(form_fields(encode_utf8(query)), "offset"@) == Some(number_text(offset as nat)),
        value_of(form_fields(encode_utf8(query)), "limit"@) == Some(number_text(limit as nat)),
        forall|k: Seq<u8>| #[trigger]
            s.store.contains_key(k) ==> (s.store[k].expire_at matches Some(d) ==> d - now.mono_ns
                < 0x7fff_ffff_ffff_ffff),
    ensures
        ({
            let all = s.scanned(encode_utf8(filter), now);
            let page = if offset >= all.len() {
                Seq::empty()
            } else if offset + limit >= all.len() {
                all.skip(offset as int)
            } else {
                all.subrange(offset as int, offset + limit)
            };
            keys_text(s, query, now) == "{\"total\":"@ + number_text(all.len()) + ",\"count\":"@
                + number_text(page.len()) + ",\"offset\":"@ + number_text(offset as nat)
                + ",\"keys\":["@ + said_keys(s, page, now) + "]}"@
        }),
{
    reveal(keys_text);
    lemma_number_text(offset as nat);
    lemma_number_text(limit as nat);
    law_signs_and_zeros(offset as nat);
    law_signs_and_zeros(limit as nat);
    let all = s.scanned(encode_utf8(filter), now);
    let page = if offset >= all.len() {
        Seq::empty()
    } else if offset + limit >= all.len() {
        all.skip(offset as int)
    } else {
        all.subrange(offset as int, offset + limit)
    };
    let first = if offset < all.len() {
        offset as int
    } else {
        all.len() as int
    };
    let last = if offset + limit < all.len() {
        offset + limit
    } else {
        all.len() as int
    };
    assert(page =~= all.subrange(first, last));
    assert forall|i: int| 0 <= i < page.len() implies s.live(#[trigger] page[i], now) by {
        lemma_scanned_live(s, encode_utf8(filter), now, first + i);
    }
    lemma_said_keys(s, page, now);
}

/// A listing that is asked for nothing lists the first fifty keys of all.
pub proof fn law_first_page(s: EngineView, query: Seq<char>, now: Clock)
    requires
        value_of(form_fields(encode_utf8(query)), "filter"@) is None,
        value_of(form_fields(encode_utf8(query)), "offset"@) is None,
        value_of(form_fields(encode_utf8(query)), "limit"@) is None,
        s.scanned(seq![42u8], now).len() >= 50,
        forall|k: Seq<u8>| #[trigger]
            s.store.contains_key(k) ==> (s.store[k].expire_at matches Some(d) ==> d - now.mono_ns
                < 0x7fff_ffff_ffff_ffff),
    ensures
        ({
            let all = s.scanned(seq![42u8], now);
            keys_text(s, query, now) == "{\"total\":"@ + number_text(all.len()) + ",\"count\":"@
                + number_text(50) + ",\"offset\":"@ + number_text(0) + ",\"keys\":["@ + said_keys(
                s,
                all.take(50),
                now,
            ) + "]}"@
        }),
{
    reveal(keys_text);
    reveal_strlit("*");
    lemma_ascii("*"@);
    assert(encode_utf8("*"@) =~= seq![42u8]);
    let all = s.scanned(seq![42u8], now);
    assert forall|i: int| 0 <= i < 50 implies s.live(#[trigger] all.take(50)[i], now) by {
        lemma_scanned_live(s, seq![42u8], now, i);
    }
    assert(all.subrange(0, 50) =~= all.take(50));
    lemma_said_keys(s, all.take(50), now);
}

proof fn lemma_paths()
    ensures
        "/"@.len() == 1,
        "/api/info"@.len() == 9,
        "/api/keys"@.len() == 9,
        "/api/command"@.len() == 12,
        "/api/keys/"@.len() == 10,
        "/api/info"@ != "/api/keys"@,
        forall|rest: Seq<char>| #[trigger] ("/api/keys/"@ + rest) != "/api/command"@,
{
    reveal_strlit("/");
    reveal_strlit("/api/info");
    reveal_strlit("/api/keys");
    reveal_strlit("/api/command");
    reveal_strlit("/api/keys/");
    assert("/api/info"@[5] != "/api/keys"@[5]);
    assert forall|rest: Seq<char>| #[trigger] ("/api/keys/"@ + rest) != "/api/command"@ by {
        assert(("/api/keys/"@ + rest)[5] == 'k');
        assert("/api/command"@[5] == 'c');
    }
}

/// The page, the figures and the list of keys are there to be read, and reading them
/// changes nothing; the page is the root.
pub proof fn law_pages_are_read(
    s: EngineView,
    page: Seq<char>,
    f: Figures,
    r: RequestView,
    now: Clock,
)
    requires
        r.path == "/"@ || r.path == "/api/info"@ || r.path == "/api/keys"@,
    ensures
        ({
            let e = routed(s, page, f, r, now);
            &&& r.method == "GET"@ ==> e.response.status == 200 && e.engine == s
            &&& r.method == "GET"@ && r.path == "/"@ ==> e.response.body == encode_utf8(page)
            &&& r.method == "GET"@ && r.path == "/api/info"@ ==> e.response.body == encode_utf8(
                info_text(s, f, now),
            )
            &&& r.method == "GET"@ && r.path == "/api/keys"@ ==> e.response.body == encode_utf8(
                keys_text(s, r.query, now),
            )
            &&& r.method != "GET"@ && !(r.method == "POST"@ && r.path == "/api/keys"@)
                ==> e.response.status == 405 && e.engine == s
        }),
{
    lemma_paths();
    lemma_methods();
}

proof fn lemma_methods()
    ensures
        "GET"@ != "POST"@,
        "GET"@ != "PUT"@,
        "GET"@ != "DELETE"@,
        "POST"@ != "PUT"@,
        "POST"@ != "DELETE"@,
        "PUT"@ != "DELETE"@,
{
    reveal_strlit("GET");
    reveal_strlit("POST");
    reveal_strlit("PUT");
    reveal_strlit("DELETE");
    assert("GET"@[0] != "PUT"@[0]);
    assert("GET"@.len() == 3 && "POST"@.len() == 4 && "PUT"@.len() == 3 && "DELETE"@.len() == 6);
}

/// A key has its own address: `GET` shows it, `DELETE` deletes it and `POST` and `PUT`
/// write it. Other methods are refused.
pub proof fn law_key_has_an_address(
    s: EngineView,
    page: Seq<char>,
    f: Figures,
    r: RequestView,
    rest: Seq<char>,
    now: Clock,
)
    requires
        r.path == "/api/keys/"@ + rest,
    ensures
        ({
            let key = encode_utf8(url_decoded(encode_utf8(rest)));
            let e = routed(s, page, f, r, now);
            &&& r.method == "GET"@ ==> e == detail_effect(s, key, now)
            &&& r.method == "DELETE"@ ==> e == delete_effect(s, key, now)
            &&& r.method == "POST"@ || r.method == "PUT"@ ==> e == update_effect(
                s,
                key,
                r.body,
                now,
            )
            &&& r.method != "GET"@ && r.method != "DELETE"@ && r.method != "POST"@ && r.method
                != "PUT"@ ==> e.response.status == 405 && e.engine == s
        }),
{
    lemma_paths();
    lemma_methods();
    reveal(key_effect);
    assert(r.path.take(10) =~= "/api/keys/"@);
    assert(r.path.skip(10) =~= rest);
}

/// Any other address is not found.
pub proof fn law_other_addresses_are_not_found(
    s: EngineView,
    page: Seq<char>,
    f: Figures,
    r: RequestView,
    now: Clock,
)
    requires
        r.path != "/"@,
        r.path != "/api/info"@,
        r.path != "/api/keys"@,
        r.path != "/api/command"@,
        forall|rest: Seq<char>| r.path != #[trigger] ("/api/keys/"@ + rest),
    ensures
        routed(s, page, f, r, now).response.status == 404,
        routed(s, page, f, r, now).engine == s,
{
    lemma_paths();
    if r.path.len() >= 10 && r.path.take(10) == "/api/keys/"@ {
        assert(r.path =~= "/api/keys/"@ + r.path.skip(10));
    }
}

/// A form writes its value under its key, as `SET` does: it is answered with 200 where the
/// write succeeds and with 500 where it does not. A form without a key, or one to a key's
/// address without a value, is answered with 400 and writes nothing.
pub proof fn law_form_writes(s: EngineView, body: Seq<u8>, address: Seq<u8>, now: Clock)
    requires
        value_of(body_fields(body), "ttl"@) is None,
    ensures
        ({
            let key = value_of(body_fields(body), "key"@);
            let value = value_of(body_fields(body), "value"@);
            let created = create_effect(s, body, now);
            let updated = update_effect(s, address, body, now);
            &&& key is None || key->0.len() == 0 ==> created.response.status == 400
                && created.engine == s
            &&& key is Some && key->0.len() > 0 && value is Some ==> {
                let (r, t) = s.set(encode_utf8(key->0), encode_utf8(value->0), now);
                &&& created.engine == t
                &&& created.response.status == if r is Ok {
                    200
                } else {
                    500int
                }
            }
            &&& value is None ==> updated.response.status == 400 && updated.engine == s
            &&& value is Some ==> {
                let (r, t) = s.set(address, encode_utf8(value->0), now);
                &&& updated.engine == t
                &&& updated.response.status == if r is Ok {
                    200
                } else {
                    500int
                }
            }
        }),
{
    reveal(create_effect);
    reveal(update_effect);
}

} // verus!
