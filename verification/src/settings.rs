use vstd::prelude::*;
use vstd::string::*;

verus! {

/// The options of the node that the metering pipeline is set up from.
#[derive(Debug)]
pub struct NodeOptions {
    pub websocket_url: Option<String>,
    pub enable_metering: bool,
    pub metering_kafka_brokers: Option<String>,
    pub metering_kafka_topic: Option<String>,
    pub metering_kafka_group_id: Option<String>,
    pub metering_kafka_properties_file: Option<String>,
}

/// Where and how accepted bundles are consumed.
#[derive(Debug, Clone)]
pub struct MeteringKafkaSettings {
    pub brokers: String,
    pub topic: String,
    pub group_id: String,
    pub properties_file: Option<String>,
}

/// How the node runs the metering pipeline.
#[derive(Debug)]
pub enum MeteringPlan {
    /// Metering is not enabled.
    Disabled,
    /// Metering is enabled and consumes bundles with these settings.
    Enabled(MeteringKafkaSettings),
    /// Metering is enabled, but brokers, topic and group are not all given. The node does not
    /// start.
    KafkaMissing,
}

/// A property of a Kafka client: its name and its value.
pub type Property = (String, String);

/// The text of an optional string.
pub open spec fn text_of(s: Option<String>) -> Option<Seq<char>> {
    match s {
        Some(s) => Some(s@),
        None => None,
    }
}

/// The name and the value of a property.
pub open spec fn pair_of(property: Property) -> (Seq<char>, Seq<char>) {
    (property.0@, property.1@)
}

/// The names and values of some properties.
pub open spec fn texts_of(properties: Seq<Property>) -> Seq<(Seq<char>, Seq<char>)> {
    properties.map_values(|p: Property| pair_of(p))
}

/// The value that a client uses for `name` after the properties have been set one after the
/// other: the one that was set last.
pub open spec fn effective(pairs: Seq<(Seq<char>, Seq<char>)>, name: Seq<char>) -> Option<Seq<char>>
    decreases pairs.len(),
{
    if pairs.len() == 0 {
        None
    } else if pairs.last().0 == name {
        Some(pairs.last().1)
    } else {
        effective(pairs.drop_last(), name)
    }
}

/// The properties that every consumer of accepted bundles starts from.
pub open spec fn base_pairs(settings: MeteringKafkaSettings) -> Seq<(Seq<char>, Seq<char>)> {
    seq![
        ("bootstrap.servers"@, settings.brokers@),
        ("group.id"@, settings.group_id@),
        ("enable.partition.eof"@, "false"@),
        ("session.timeout.ms"@, "6000"@),
        ("enable.auto.commit"@, "true"@),
        ("auto.offset.reset"@, "earliest"@),
    ]
}

/// The message with which the node refuses to start when Kafka is not configured.
pub fn kafka_missing_message() -> (r: &'static str)
    ensures
        r@
            == "Metering requires Kafka configuration: provide --metering-kafka-brokers, --metering-kafka-topic, and --metering-kafka-group-id"@,
{
    "Metering requires Kafka configuration: provide --metering-kafka-brokers, --metering-kafka-topic, and --metering-kafka-group-id"
}

impl NodeOptions {
    /// Whether metering is enabled and brokers, topic and group are given.
    pub open spec fn kafka_configured(self) -> bool {
        &&& self.enable_metering
        &&& self.metering_kafka_brokers is Some
        &&& self.metering_kafka_topic is Some
        &&& self.metering_kafka_group_id is Some
    }

    /// Returns whether the flashblocks feed is to be followed.
    pub fn flashblocks_enabled(&self) -> (r: bool)
        ensures
            r == (self.websocket_url is Some),
    {
        self.websocket_url.is_some()
    }

    /// Returns the Kafka settings, if metering is enabled and they are complete.
    pub fn metering_kafka_settings(&self) -> (r: Option<MeteringKafkaSettings>)
        ensures
            r is Some <==> self.kafka_configured(),
            r is Some ==> {
                &&& r->0.brokers@ == self.metering_kafka_brokers->0@
                &&& r->0.topic@ == self.metering_kafka_topic->0@
                &&& r->0.group_id@ == self.metering_kafka_group_id->0@
                &&& text_of(r->0.properties_file) == text_of(self.metering_kafka_properties_file)
            },
    {
        if !self.enable_metering {
            return None;
        }
        match (
            &self.metering_kafka_brokers,
            &self.metering_kafka_topic,
            &self.metering_kafka_group_id,
        ) {
            (Some(brokers), Some(topic), Some(group_id)) => Some(
                MeteringKafkaSettings {
                    brokers: brokers.clone(),
                    topic: topic.clone(),
                    group_id: group_id.clone(),
                    properties_file: match &self.metering_kafka_properties_file {
                        Some(path) => Some(path.clone()),
                        None => None,
                    },
                },
            ),
            _ => None,
        }
    }

    /// Decides how the node runs the metering pipeline.
    pub fn metering_plan(&self) -> (r: MeteringPlan)
        ensures
            r is Disabled <==> !self.enable_metering,
            r is Enabled <==> self.kafka_configured(),
            r is KafkaMissing <==> self.enable_metering && !self.kafka_configured(),
            r is Enabled ==> {
                &&& r->Enabled_0.brokers@ == self.metering_kafka_brokers->0@
                &&& r->Enabled_0.topic@ == self.metering_kafka_topic->0@
                &&& r->Enabled_0.group_id@ == self.metering_kafka_group_id->0@
                &&& text_of(r->Enabled_0.properties_file) == text_of(
                    self.metering_kafka_properties_file,
                )
            },
    {
        match self.metering_kafka_settings() {
            Some(settings) => MeteringPlan::Enabled(settings),
            None => if self.enable_metering {
                MeteringPlan::KafkaMissing
            } else {
                MeteringPlan::Disabled
            },
        }
    }
}

fn property(name: &str, value: &str) -> (r: Property)
    ensures
        pair_of(r) == (name@, value@),
{
    (name.to_string(), value.to_string())
}

impl MeteringKafkaSettings {
    /// Returns the properties to be set on the consumer, in this order: the fixed ones, then
    /// those of the properties file.
    pub fn client_properties(&self, from_file: &Vec<Property>) -> (r: Vec<Property>)
        ensures
            texts_of(r@) == base_pairs(*self) + texts_of(from_file@),
    {
        let mut r: Vec<Property> = Vec::new();
        r.push(property("bootstrap.servers", self.brokers.as_str()));
        r.push(property("group.id", self.group_id.as_str()));
        r.push(property("enable.partition.eof", "false"));
        r.push(property("session.timeout.ms", "6000"));
        r.push(property("enable.auto.commit", "true"));
        r.push(property("auto.offset.reset", "earliest"));
        assert(texts_of(r@) =~= base_pairs(*self) + texts_of(from_file@.take(0)));
        let mut i: usize = 0;
        while i < from_file.len()
            invariant
                i <= from_file.len(),
                texts_of(r@) == base_pairs(*self) + texts_of(from_file@.take(i as int)),
            decreases from_file.len() - i,
        {
            let next = property(from_file[i].0.as_str(), from_file[i].1.as_str());
            proof {
                assert(texts_of(r@.push(next)) =~= texts_of(r@).push(pair_of(next)));
                assert(texts_of(from_file@.take(i + 1)) =~= texts_of(
                    from_file@.take(i as int),
                ).push(pair_of(from_file@[i as int])));
            }
            r.push(next);
            i += 1;
            assert(texts_of(r@) =~= base_pairs(*self) + texts_of(from_file@.take(i as int)));
        }
        assert(from_file@.take(i as int) =~= from_file@);
        r
    }
}

/// A property of the file takes the place of a fixed one with its name, and the fixed ones
/// that the file does not name stay.
pub proof fn law_file_wins(
    base: Seq<(Seq<char>, Seq<char>)>,
    file: Seq<(Seq<char>, Seq<char>)>,
    name: Seq<char>,
)
    ensures
        effective(base + file, name) == (match effective(file, name) {
            Some(value) => Some(value),
            None => effective(base, name),
        }),
    decreases file.len(),
{
    if file.len() == 0 {
        assert(base + file =~= base);
    } else {
        law_file_wins(base, file.drop_last(), name);
        assert((base + file).drop_last() =~= base + file.drop_last());
        assert((base + file).last() == file.last());
    }
}

} // verus!
