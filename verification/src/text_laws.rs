use crate::decimal::decimal;
use crate::resource::ResourceKind;
use crate::rpc::MeteringError;
use crate::settings::{
    base_pairs, effective, law_file_wins, MeteringKafkaSettings, NodeOptions,
};
use crate::sizing::estimated_size;
use crate::u256::{largest, U256};
use vstd::prelude::*;

verus! {

/// The number that some decimal digits stand for.
pub open spec fn number(text: Seq<char>) -> int
    decreases text.len(),
{
    if text.len() == 0 {
        0
    } else {
        number(text.drop_last()) * 10 + (text.last() as int - '0' as int)
    }
}

/// What is written in decimal reads back as the number that was written. It consists of the
/// digits from 0 to 9, and no zero leads unless the number is zero.
pub proof fn law_decimal_reads_back(n: nat)
    ensures
        number(decimal(n)) == n,
        decimal(n).len() > 0,
        forall|i: int| 0 <= i < decimal(n).len() ==> '0' <= #[trigger] decimal(n)[i] <= '9',
        n > 0 ==> decimal(n)[0] != '0',
        n == 0 ==> decimal(n).len() == 1,
    decreases n,
{
    reveal_with_fuel(number, 2);
    if n < 10 {
        assert(decimal(n).drop_last() =~= Seq::empty());
    } else {
        law_decimal_reads_back(n / 10);
        assert(decimal(n).drop_last() =~= decimal(n / 10));
        assert(decimal(n)[0] == decimal(n / 10)[0]);
        assert forall|i: int| 0 <= i < decimal(n).len() implies '0' <= #[trigger] decimal(n)[i]
            <= '9' by {
            if i < decimal(n / 10).len() {
                assert(decimal(n)[i] == decimal(n / 10)[i]);
            }
        }
    }
}

/// Different numbers are written differently.
pub proof fn law_decimal_tells_apart(a: nat, b: nat)
    requires
        decimal(a) == decimal(b),
    ensures
        a == b,
{
    law_decimal_reads_back(a);
    law_decimal_reads_back(b);
}

/// The estimated size in millionths of a byte is at most 836500 for each byte of the compressed
/// length less 42585600, and less than a byte below that, unless 100 bytes are more.
pub proof fn law_size_is_linear(length: u32)
    ensures
        ({
            let size = estimated_size(length);
            let millionths = 836_500 * length - 42_585_600;
            &&& size >= 100
            &&& size > 100 ==> size * 1_000_000 <= millionths
            &&& millionths < (size + 1) * 1_000_000
        }),
{
}

/// The value in force for a name is the one that was set last under it.
pub proof fn law_last_setting_counts(
    pairs: Seq<(Seq<char>, Seq<char>)>,
    name: Seq<char>,
    value: Seq<char>,
)
    ensures
        effective(pairs, name) == Some(value) <==> exists|i: int|
            {
                &&& 0 <= i < pairs.len()
                &&& #[trigger] pairs[i] == (name, value)
                &&& forall|j: int| i < j < pairs.len() ==> (#[trigger] pairs[j]).0 != name
            },
        effective(pairs, name) is None <==> forall|i: int|
            0 <= i < pairs.len() ==> (#[trigger] pairs[i]).0 != name,
    decreases pairs.len(),
{
    if pairs.len() > 0 {
        let earlier = pairs.drop_last();
        let last = pairs.len() - 1;
        law_last_setting_counts(earlier, name, value);
        if pairs.last().0 == name {
            assert(pairs[last].0 == name);
            if pairs.last().1 == value {
                assert(pairs[last] == (name, value));
            }
        } else {
            if effective(earlier, name) == Some(value) {
                let i = choose|i: int|
                    {
                        &&& 0 <= i < earlier.len()
                        &&& #[trigger] earlier[i] == (name, value)
                        &&& forall|j: int| i < j < earlier.len() ==> (#[trigger] earlier[j]).0
                            != name
                    };
                assert(pairs[i] == (name, value));
                assert forall|j: int| i < j < pairs.len() implies (#[trigger] pairs[j]).0
                    != name by {
                    if j < last {
                        assert(earlier[j].0 != name);
                    }
                }
            }
            if exists|i: int|
                {
                    &&& 0 <= i < pairs.len()
                    &&& #[trigger] pairs[i] == (name, value)
                    &&& forall|j: int| i < j < pairs.len() ==> (#[trigger] pairs[j]).0 != name
                } {
                let i = choose|i: int|
                    {
                        &&& 0 <= i < pairs.len()
                        &&& #[trigger] pairs[i] == (name, value)
                        &&& forall|j: int| i < j < pairs.len() ==> (#[trigger] pairs[j]).0 != name
                    };
                assert(i < last);
                assert(earlier[i] == (name, value));
                assert forall|j: int| i < j < earlier.len() implies (#[trigger] earlier[j]).0
                    != name by {
                    assert(pairs[j].0 != name);
                }
            }
            if effective(earlier, name) is None {
                assert forall|i: int| 0 <= i < pairs.len() implies (#[trigger] pairs[i]).0
                    != name by {
                    if i < last {
                        assert(earlier[i].0 != name);
                    }
                }
            } else {
                let i = choose|i: int| 0 <= i < earlier.len() && (#[trigger] earlier[i]).0 == name;
                assert(pairs[i].0 == name);
            }
        }
    }
}

/// A consumer connects to the brokers and joins the group of its settings, whatever other names
/// the properties file sets, and reads from the earliest message on.
pub proof fn law_consumer_settings(
    settings: MeteringKafkaSettings,
    file: Seq<(Seq<char>, Seq<char>)>,
)
    ensures
        effective(file, "bootstrap.servers"@) is None ==> effective(
            base_pairs(settings) + file,
            "bootstrap.servers"@,
        ) == Some(settings.brokers@),
        effective(file, "group.id"@) is None ==> effective(
            base_pairs(settings) + file,
            "group.id"@,
        ) == Some(settings.group_id@),
        effective(file, "auto.offset.reset"@) is None ==> effective(
            base_pairs(settings) + file,
            "auto.offset.reset"@,
        ) == Some("earliest"@),
        effective(file, "enable.auto.commit"@) is None ==> effective(
            base_pairs(settings) + file,
            "enable.auto.commit"@,
        ) == Some("true"@),
        effective(file, "enable.partition.eof"@) is None ==> effective(
            base_pairs(settings) + file,
            "enable.partition.eof"@,
        ) == Some("false"@),
        effective(file, "session.timeout.ms"@) is None ==> effective(
            base_pairs(settings) + file,
            "session.timeout.ms"@,
        ) == Some("6000"@),
{
    reveal_strlit("bootstrap.servers");
    reveal_strlit("group.id");
    reveal_strlit("enable.partition.eof");
    reveal_strlit("session.timeout.ms");
    reveal_strlit("enable.auto.commit");
    reveal_strlit("auto.offset.reset");
    let base = base_pairs(settings);
    assert("enable.partition.eof"@[7] != "enable.auto.commit"@[7]);
    assert("bootstrap.servers"@[0] != "group.id"@[0]);
    assert forall|i: int, j: int| 0 <= i < j < 6 implies (#[trigger] base[i]).0 != (
    #[trigger] base[j]).0 by {
        assert(base[i].0.len() != base[j].0.len() || base[i].0[0] != base[j].0[0] || base[i].0[7]
            != base[j].0[7]);
    }
    assert(base[0].0 == "bootstrap.servers"@ && base[0].1 == settings.brokers@);
    law_last_setting_counts(base, base[0].0, base[0].1);
    law_last_setting_counts(base, base[1].0, base[1].1);
    law_last_setting_counts(base, base[2].0, base[2].1);
    law_last_setting_counts(base, base[3].0, base[3].1);
    law_last_setting_counts(base, base[4].0, base[4].1);
    law_last_setting_counts(base, base[5].0, base[5].1);
    law_file_wins(base, file, base[0].0);
    law_file_wins(base, file, base[1].0);
    law_file_wins(base, file, base[2].0);
    law_file_wins(base, file, base[3].0);
    law_file_wins(base, file, base[4].0);
    law_file_wins(base, file, base[5].0);
}

/// Kafka is configured exactly where metering is enabled and brokers, topic and group are given,
/// whether or not there is a properties file.
pub proof fn law_kafka_configured(options: NodeOptions)
    ensures
        options.kafka_configured() ==> options.enable_metering,
        options.kafka_configured() ==> options.metering_kafka_brokers is Some,
        options.kafka_configured() ==> options.metering_kafka_topic is Some,
        options.kafka_configured() ==> options.metering_kafka_group_id is Some,
        !options.kafka_configured() ==> !options.enable_metering
            || options.metering_kafka_brokers is None || options.metering_kafka_topic is None
            || options.metering_kafka_group_id is None,
{
}

/// Each resource goes by its own name.
pub proof fn law_resource_names(kind: ResourceKind)
    ensures
        kind is GasUsed <==> kind.camel_case() == "gasUsed"@,
        kind is ExecutionTime <==> kind.camel_case() == "executionTime"@,
        kind is StateRootTime <==> kind.camel_case() == "stateRootTime"@,
        kind is DataAvailability <==> kind.camel_case() == "dataAvailability"@,
{
    reveal_strlit("gasUsed");
    reveal_strlit("executionTime");
    reveal_strlit("stateRootTime");
    reveal_strlit("dataAvailability");
    assert(kind.camel_case()[0] == (match kind {
        ResourceKind::GasUsed => "gasUsed"@[0],
        ResourceKind::ExecutionTime => "executionTime"@[0],
        ResourceKind::StateRootTime => "stateRootTime"@[0],
        ResourceKind::DataAvailability => "dataAvailability"@[0],
    }));
}

/// The message of an error starts with what went wrong and ends with the text of the underlying
/// error, where there is one.
pub proof fn law_error_text(cause: String)
    ensures
        MeteringError::HeaderLookup(cause).text() == "Failed to get latest header: "@ + cause@,
        MeteringError::BundleParse(cause).text() == "Failed to parse bundle: "@ + cause@,
        MeteringError::StateProvider(cause).text() == "Failed to get state provider: "@ + cause@,
        MeteringError::Metering(cause).text() == "Bundle metering failed: "@ + cause@,
        MeteringError::HeaderMissing.text() == "Latest block not found"@,
        MeteringError::FeeDataUnavailable.text() == "Priority fee data unavailable"@,
{
}

/// The order of 256-bit numbers goes by their words, the most significant first, the words are
/// digits to the base 2^64, and no number is above the largest.
pub proof fn law_words(a: U256, b: U256)
    ensures
        a@ <= largest(),
        a@ == b@ ==> a == b,
        a.w3 < b.w3 ==> a@ < b@,
        a.w3 == b.w3 && a.w2 < b.w2 ==> a@ < b@,
        a.w3 == b.w3 && a.w2 == b.w2 && a.w1 < b.w1 ==> a@ < b@,
        a.w3 == b.w3 && a.w2 == b.w2 && a.w1 == b.w1 ==> a@ - b@ == a.w0 - b.w0,
        a.w3 == b.w3 && a.w2 == b.w2 && a.w1 == b.w1 + 1 && a.w0 == 0 && b.w0 == u64::MAX ==> a@
            == b@ + 1,
        a.w3 == b.w3 && a.w2 == b.w2 + 1 && a.w1 == 0 && a.w0 == 0 && b.w1 == u64::MAX && b.w0
            == u64::MAX ==> a@ == b@ + 1,
        a.w3 == b.w3 + 1 && a.w2 == 0 && a.w1 == 0 && a.w0 == 0 && b.w2 == u64::MAX && b.w1
            == u64::MAX && b.w0 == u64::MAX ==> a@ == b@ + 1,
        a.w3 == 0 && a.w2 == 0 && a.w1 == 0 && a.w0 == 0 ==> a@ == 0,
        a.w3 == u64::MAX && a.w2 == u64::MAX && a.w1 == u64::MAX && a.w0 == u64::MAX ==> a@
            == largest(),
{
}

} // verus!
