//! Metrics of the node, gathered by a Prometheus registry.

use vstd::prelude::*;

verus! {

/// The registry that gathers the metrics.
#[verifier::external_type_specification]
#[verifier::external_body]
pub struct ExRegistry(prometheus::Registry);

/// What goes wrong with a metric.
#[verifier::external_type_specification]
#[verifier::external_body]
pub struct ExPrometheusError(prometheus::Error);

/// A collection of counters, one for each combination of label values.
///
/// It holds a `prometheus::IntCounterVec`, whose type cannot be named in full:
/// its last part is private to `prometheus`.
#[verifier::external_body]
pub struct CounterFamily {
    counters: prometheus::IntCounterVec,
}

/// A number that can go up and down.
///
/// It holds a `prometheus::IntGauge`, which is bound by a trait of `prometheus`.
#[verifier::external_body]
pub struct NumberGauge {
    gauge: prometheus::IntGauge,
}

/// A collection of counters that a registry has taken: only
/// [`register_counters`] makes one.
#[verifier::external_body]
#[derive(Debug)]
pub struct RegisteredCounters {
    counters: prometheus::IntCounterVec,
}

/// A gauge that a registry has taken: only [`register_gauge`] makes one.
#[verifier::external_body]
#[derive(Debug)]
pub struct RegisteredGauge {
    gauge: prometheus::IntGauge,
}

/// What a collection of counters is described by: its full name, its help text
/// and the names of its labels.
pub uninterp spec fn family_desc(family: CounterFamily) -> Seq<Seq<char>>;

/// What a gauge is described by: its full name and its help text.
pub uninterp spec fn gauge_desc(gauge: NumberGauge) -> Seq<Seq<char>>;

/// What the collection of counters that a registry has taken is described by.
pub uninterp spec fn registered_desc(counters: RegisteredCounters) -> Seq<Seq<char>>;

/// What the gauge that a registry has taken is described by.
pub uninterp spec fn registered_gauge_desc(gauge: RegisteredGauge) -> Seq<Seq<char>>;

/// Whether a character can begin the name of a label.
pub open spec fn is_first_char(c: char) -> bool {
    'a' <= c <= 'z' || 'A' <= c <= 'Z' || c == '_'
}

/// Whether a character can stand in the name of a label.
pub open spec fn is_name_char(c: char) -> bool {
    is_first_char(c) || '0' <= c <= '9'
}

/// Whether a text is the name of a label.
pub open spec fn is_label_name(s: Seq<char>) -> bool {
    &&& s.len() > 0
    &&& is_first_char(s[0])
    &&& forall|i: int| 0 <= i < s.len() ==> is_name_char(#[trigger] s[i])
}

/// Whether a text is the full name of a metric, in which colons are allowed too.
pub open spec fn is_metric_name(s: Seq<char>) -> bool {
    &&& s.len() > 0
    &&& is_first_char(s[0]) || s[0] == ':'
    &&& forall|i: int| 0 <= i < s.len() ==> is_name_char(#[trigger] s[i]) || s[i] == ':'
}

/// The full name of a metric: its parts joined by underscores, without those
/// that are empty. There is none if the name itself is empty.
pub open spec fn full_name(namespace: Seq<char>, subsystem: Seq<char>, name: Seq<char>) -> Seq<
    char,
> {
    if name.len() == 0 {
        Seq::empty()
    } else {
        let rest = if subsystem.len() == 0 {
            name
        } else {
            subsystem.push('_') + name
        };
        if namespace.len() == 0 {
            rest
        } else {
            namespace.push('_') + rest
        }
    }
}

/// The texts of string slices.
pub open spec fn texts(labels: Seq<&str>) -> Seq<Seq<char>> {
    labels.map_values(|label: &str| label@)
}

/// Whether a metric can be described by these texts.
pub open spec fn can_describe(name: Seq<char>, help: Seq<char>, labels: Seq<Seq<char>>) -> bool {
    &&& help.len() > 0
    &&& is_metric_name(name)
    &&& forall|i: int| 0 <= i < labels.len() ==> is_label_name(#[trigger] labels[i])
    &&& labels.no_duplicates()
}

/// Creates a collection of counters, by `prometheus::IntCounterVec::new`.
///
/// It succeeds if and only if the help text is not empty, the full name that is
/// made of the namespace, the subsystem and the name is that of a metric, and
/// the labels have names that differ. The counters are then described by these
/// texts.
#[verifier::external_body]
fn create_counters(
    namespace: &str,
    subsystem: &str,
    name: &str,
    help: &str,
    labels: &Vec<&str>,
) -> (r: Result<CounterFamily, prometheus::Error>)
    ensures
        r is Ok <==> can_describe(
            full_name(namespace@, subsystem@, name@),
            help@,
            texts(labels@),
        ),
        r matches Ok(family) ==> family_desc(family) == seq![
            full_name(namespace@, subsystem@, name@),
            help@,
        ] + texts(labels@),
{
    let opts = prometheus::Opts::new(name, help).namespace(namespace).subsystem(subsystem);
    match prometheus::IntCounterVec::new(opts, labels) {
        Ok(counters) => Ok(CounterFamily { counters }),
        Err(error) => Err(error),
    }
}

/// Creates a gauge, by `prometheus::IntGauge::with_opts`.
///
/// It succeeds if and only if the help text is not empty and the full name that
/// is made of the namespace, the subsystem and the name is that of a metric. The
/// gauge is then described by these texts.
#[verifier::external_body]
fn create_gauge(namespace: &str, subsystem: &str, name: &str, help: &str) -> (r: Result<
    NumberGauge,
    prometheus::Error,
>)
    ensures
        r is Ok <==> can_describe(
            full_name(namespace@, subsystem@, name@),
            help@,
            Seq::empty(),
        ),
        r matches Ok(gauge) ==> gauge_desc(gauge) == seq![
            full_name(namespace@, subsystem@, name@),
            help@,
        ],
{
    let opts = prometheus::Opts::new(name, help).namespace(namespace).subsystem(subsystem);
    match prometheus::IntGauge::with_opts(opts) {
        Ok(gauge) => Ok(NumberGauge { gauge }),
        Err(error) => Err(error),
    }
}

/// Enters a collection of counters in a registry, by
/// `prometheus::Registry::register`, and gives it back if the registry took it.
///
/// What is given back is described as what was entered. Whether the registry takes
/// it is left unsaid: that rests on what the registry, which others share, holds at
/// that moment.
#[verifier::external_body]
fn register_counters(registry: &prometheus::Registry, family: CounterFamily) -> (r: Result<
    RegisteredCounters,
    prometheus::Error,
>)
    ensures
        r matches Ok(taken) ==> registered_desc(taken) == family_desc(family),
{
    match registry.register(Box::new(family.counters.clone())) {
        Ok(()) => Ok(RegisteredCounters { counters: family.counters }),
        Err(error) => Err(error),
    }
}

/// Enters a gauge in a registry, by `prometheus::Registry::register`, and gives it
/// back if the registry took it.
///
/// What is given back is described as what was entered. Whether the registry takes
/// it is left unsaid: that rests on what the registry, which others share, holds at
/// that moment.
#[verifier::external_body]
fn register_gauge(registry: &prometheus::Registry, gauge: NumberGauge) -> (r: Result<
    RegisteredGauge,
    prometheus::Error,
>)
    ensures
        r matches Ok(taken) ==> registered_gauge_desc(taken) == gauge_desc(gauge),
{
    match registry.register(Box::new(gauge.gauge.clone())) {
        Ok(()) => Ok(RegisteredGauge { gauge: gauge.gauge }),
        Err(error) => Err(error),
    }
}

/// The first metric that the registry refused.
#[derive(Debug)]
pub struct MetricsError {
    /// The name of the metric.
    pub name: &'static str,
    /// Why the registry refused it.
    pub error: prometheus::Error,
    /// The counters that the registry had taken before, in the order in which they
    /// were entered.
    pub taken: Vec<RegisteredCounters>,
}

/// What the metrics of a node are described by.
#[verifier::ext_equal]
pub struct MetricsView {
    pub sent_requests: Seq<Seq<char>>,
    pub received_responses: Seq<Seq<char>>,
    pub received_requests: Seq<Seq<char>>,
    pub sent_responses: Seq<Seq<char>>,
    pub errors: Seq<Seq<char>>,
    pub records_stored: Seq<Seq<char>>,
}

/// The kinds of requests.
pub open spec fn request_labels() -> Seq<Seq<char>> {
    seq!["find_node"@, "get_providers"@, "add_provider"@, "get_record"@, "put_record"@]
}

/// The kinds of responses.
pub open spec fn response_labels() -> Seq<Seq<char>> {
    seq!["find_node"@, "get_providers"@, "get_record"@, "put_record"@]
}

/// The kinds of errors.
pub open spec fn error_labels() -> Seq<Seq<char>> {
    seq!["todo"@]
}

/// The full name of a metric of the node.
pub open spec fn kad_name(name: Seq<char>) -> Seq<char> {
    full_name("libp2p"@, "kad"@, name)
}

/// What a metric of the node is described by: its full name, its bare name as
/// the help text, and its labels.
pub open spec fn kad_desc(name: Seq<char>, labels: Seq<Seq<char>>) -> Seq<Seq<char>> {
    seq![kad_name(name), name] + labels
}

/// What all metrics of a node are described by.
pub open spec fn kad_metrics() -> MetricsView {
    MetricsView {
        sent_requests: kad_desc("sent_requests"@, request_labels()),
        received_responses: kad_desc("received_responses"@, response_labels()),
        received_requests: kad_desc("received_requests"@, request_labels()),
        sent_responses: kad_desc("sent_responses"@, response_labels()),
        errors: kad_desc("errors"@, error_labels()),
        records_stored: kad_desc("records_stored"@, Seq::empty()),
    }
}

/// The names of the metrics of a node, in the order in which they are
/// registered.
pub open spec fn kad_names() -> Seq<Seq<char>> {
    seq![
        "sent_requests"@,
        "received_requests"@,
        "sent_responses"@,
        "received_responses"@,
        "errors"@,
        "records_stored"@,
    ]
}

/// The labels of the metrics of a node, in the order in which they are registered.
pub open spec fn kad_labels() -> Seq<Seq<Seq<char>>> {
    seq![
        request_labels(),
        request_labels(),
        response_labels(),
        response_labels(),
        error_labels(),
        Seq::empty(),
    ]
}

/// Whether the first counters of a node were taken, in their order and no others.
pub open spec fn are_first_counters(taken: Seq<RegisteredCounters>) -> bool {
    &&& taken.len() <= 5
    &&& forall|i: int|
        0 <= i < taken.len() ==> registered_desc(#[trigger] taken[i]) == kad_desc(
            kad_names()[i],
            kad_labels()[i],
        )
}

/// A name with the prefix of the node's metrics is that of a metric if it is
/// that of a label.
proof fn kad_name_is_metric_name(name: Seq<char>)
    requires
        is_label_name(name),
    ensures
        is_metric_name(kad_name(name)),
{
    reveal_strlit("libp2p");
    reveal_strlit("kad");
    assert("libp2p"@ =~= seq!['l', 'i', 'b', 'p', '2', 'p']);
    assert("kad"@ =~= seq!['k', 'a', 'd']);
    let rest = "kad"@.push('_') + name;
    let full = "libp2p"@.push('_') + rest;
    assert forall|i: int| 0 <= i < full.len() implies is_name_char(#[trigger] full[i]) by {
        if i < 7 {
            assert(full[i] == "libp2p"@.push('_')[i]);
        } else if i < 11 {
            assert(full[i] == "kad"@.push('_')[i - 7]);
        } else {
            assert(full[i] == name[i - 11]);
        }
    }
    assert(full[0] == 'l');
}

proof fn names_are_label_names()
    ensures
        forall|i: int| 0 <= i < kad_names().len() ==> is_label_name(#[trigger] kad_names()[i]),
{
    reveal_strlit("sent_requests");
    reveal_strlit("received_requests");
    reveal_strlit("sent_responses");
    reveal_strlit("received_responses");
    reveal_strlit("errors");
    reveal_strlit("records_stored");
    assert("sent_requests"@ =~= seq![
        's', 'e', 'n', 't', '_', 'r', 'e', 'q', 'u', 'e', 's', 't', 's',
    ]);
    assert("received_requests"@ =~= seq![
        'r', 'e', 'c', 'e', 'i', 'v', 'e', 'd', '_', 'r', 'e', 'q', 'u', 'e', 's', 't', 's',
    ]);
    assert("sent_responses"@ =~= seq![
        's', 'e', 'n', 't', '_', 'r', 'e', 's', 'p', 'o', 'n', 's', 'e', 's',
    ]);
    assert("received_responses"@ =~= seq![
        'r', 'e', 'c', 'e', 'i', 'v', 'e', 'd', '_', 'r', 'e', 's', 'p', 'o', 'n', 's', 'e', 's',
    ]);
    assert("errors"@ =~= seq!['e', 'r', 'r', 'o', 'r', 's']);
    assert("records_stored"@ =~= seq![
        'r', 'e', 'c', 'o', 'r', 'd', 's', '_', 's', 't', 'o', 'r', 'e', 'd',
    ]);
}

/// Whether labels have names that differ.
pub open spec fn are_labels(labels: Seq<Seq<char>>) -> bool {
    &&& forall|i: int| 0 <= i < labels.len() ==> is_label_name(#[trigger] labels[i])
    &&& labels.no_duplicates()
}

proof fn labels_are_labels()
    ensures
        are_labels(request_labels()),
        are_labels(response_labels()),
        are_labels(error_labels()),
{
    reveal_strlit("find_node");
    reveal_strlit("get_providers");
    reveal_strlit("add_provider");
    reveal_strlit("get_record");
    reveal_strlit("put_record");
    reveal_strlit("todo");
    assert("find_node"@ =~= seq!['f', 'i', 'n', 'd', '_', 'n', 'o', 'd', 'e']);
    assert("get_providers"@ =~= seq![
        'g', 'e', 't', '_', 'p', 'r', 'o', 'v', 'i', 'd', 'e', 'r', 's',
    ]);
    assert("add_provider"@ =~= seq![
        'a', 'd', 'd', '_', 'p', 'r', 'o', 'v', 'i', 'd', 'e', 'r',
    ]);
    assert("get_record"@ =~= seq!['g', 'e', 't', '_', 'r', 'e', 'c', 'o', 'r', 'd']);
    assert("put_record"@ =~= seq!['p', 'u', 't', '_', 'r', 'e', 'c', 'o', 'r', 'd']);
    assert("todo"@ =~= seq!['t', 'o', 'd', 'o']);
    assert("get_record"@[0] != "put_record"@[0]);
}

/// The metrics of a node.
struct InnerMetrics {
    sent_requests: RegisteredCounters,
    received_responses: RegisteredCounters,
    received_requests: RegisteredCounters,
    sent_responses: RegisteredCounters,
    errors: RegisteredCounters,
    records_stored: RegisteredGauge,
}

enum Inner {
    Enabled(InnerMetrics),
    Disabled,
}

/// The metrics of a node, unless they are disabled.
pub struct Metrics {
    inner: Inner,
}

impl View for Metrics {
    type V = Option<MetricsView>;

    closed spec fn view(&self) -> Option<MetricsView> {
        match self.inner {
            Inner::Enabled(inner) => Some(
                MetricsView {
                    sent_requests: registered_desc(inner.sent_requests),
                    received_responses: registered_desc(inner.received_responses),
                    received_requests: registered_desc(inner.received_requests),
                    sent_responses: registered_desc(inner.sent_responses),
                    errors: registered_desc(inner.errors),
                    records_stored: registered_gauge_desc(inner.records_stored),
                },
            ),
            Inner::Disabled => None,
        }
    }
}

/// What becomes of a collection of counters by the answer of the registry: it joins
/// those that were taken before, or it is the first that was refused.
pub fn settle(
    taken: Vec<RegisteredCounters>,
    name: &'static str,
    answer: Result<RegisteredCounters, prometheus::Error>,
) -> (r: Result<Vec<RegisteredCounters>, MetricsError>)
    ensures
        match (answer, r) {
            (Ok(counters), Ok(all)) => all@ == taken@.push(counters),
            (Err(error), Err(refused)) => {
                &&& refused.name == name
                &&& refused.error == error
                &&& refused.taken == taken
            },
            _ => false,
        },
{
    match answer {
        Ok(counters) => {
            let mut all = taken;
            all.push(counters);
            Ok(all)
        },
        Err(error) => Err(MetricsError { name, error, taken }),
    }
}

/// Creates counters of the node.
fn kad_counters(name: &'static str, labels: &Vec<&str>) -> (family: CounterFamily)
    requires
        is_label_name(name@),
        are_labels(texts(labels@)),
    ensures
        family_desc(family) == kad_desc(name@, texts(labels@)),
{
    proof {
        kad_name_is_metric_name(name@);
    }
    create_counters("libp2p", "kad", name, name, labels).unwrap()
}

/// Creates a gauge of the node.
fn kad_gauge(name: &'static str) -> (gauge: NumberGauge)
    requires
        is_label_name(name@),
    ensures
        gauge_desc(gauge) == kad_desc(name@, Seq::empty()),
{
    proof {
        kad_name_is_metric_name(name@);
    }
    assert(kad_desc(name@, Seq::empty()) =~= seq![kad_name(name@), name@]);
    create_gauge("libp2p", "kad", name, name).unwrap()
}

/// Creates the next counters of the node and enters them in the registry.
fn enter_counters(
    registry: &prometheus::Registry,
    taken: Vec<RegisteredCounters>,
    name: &'static str,
    labels: &Vec<&str>,
) -> (r: Result<Vec<RegisteredCounters>, MetricsError>)
    requires
        taken@.len() < 5,
        are_first_counters(taken@),
        name@ == kad_names()[taken@.len() as int],
        texts(labels@) == kad_labels()[taken@.len() as int],
    ensures
        match r {
            Ok(all) => are_first_counters(all@) && all@.len() == taken@.len() + 1,
            Err(refused) => refused.name == name && refused.taken == taken,
        },
{
    proof {
        names_are_label_names();
        labels_are_labels();
    }
    let family = kad_counters(name, labels);
    let answer = register_counters(registry, family);
    settle(taken, name, answer)
}

impl Metrics {
    /// No metrics.
    pub fn disabled() -> (r: Metrics)
        ensures
            r@ is None,
    {
        Metrics { inner: Inner::Disabled }
    }

    /// Creates all metrics and registers them, one after the other, or gives the
    /// first that the registry refused, together with those that it had taken.
    pub fn enabled(registry: &prometheus::Registry) -> (r: Result<Metrics, MetricsError>)
        ensures
            match r {
                Ok(metrics) => metrics@ == Some(kad_metrics()),
                Err(refused) => {
                    &&& are_first_counters(refused.taken@)
                    &&& refused.name@ == kad_names()[refused.taken@.len() as int]
                },
            },
    {
        let requests: Vec<&str> = vec![
            "find_node",
            "get_providers",
            "add_provider",
            "get_record",
            "put_record",
        ];
        let responses: Vec<&str> = vec!["find_node", "get_providers", "get_record", "put_record"];
        let errors: Vec<&str> = vec!["todo"];
        proof {
            names_are_label_names();
            assert(texts(requests@) =~= request_labels());
            assert(texts(responses@) =~= response_labels());
            assert(texts(errors@) =~= error_labels());
            assert(is_label_name(kad_names()[5]));
        }
        let taken = match enter_counters(registry, Vec::new(), "sent_requests", &requests) {
            Ok(taken) => taken,
            Err(refused) => {
                return Err(refused);
            },
        };
        let taken = match enter_counters(registry, taken, "received_requests", &requests) {
            Ok(taken) => taken,
            Err(refused) => {
                return Err(refused);
            },
        };
        let taken = match enter_counters(registry, taken, "sent_responses", &responses) {
            Ok(taken) => taken,
            Err(refused) => {
                return Err(refused);
            },
        };
        let taken = match enter_counters(registry, taken, "received_responses", &responses) {
            Ok(taken) => taken,
            Err(refused) => {
                return Err(refused);
            },
        };
        let mut taken = match enter_counters(registry, taken, "errors", &errors) {
            Ok(taken) => taken,
            Err(refused) => {
                return Err(refused);
            },
        };
        let records_stored = match register_gauge(registry, kad_gauge("records_stored")) {
            Ok(gauge) => gauge,
            Err(error) => {
                return Err(MetricsError { name: "records_stored", error, taken });
            },
        };
        let ghost all = taken@;
        assert(registered_desc(all[0]) == kad_desc(kad_names()[0], kad_labels()[0]));
        assert(registered_desc(all[1]) == kad_desc(kad_names()[1], kad_labels()[1]));
        assert(registered_desc(all[2]) == kad_desc(kad_names()[2], kad_labels()[2]));
        assert(registered_desc(all[3]) == kad_desc(kad_names()[3], kad_labels()[3]));
        assert(registered_desc(all[4]) == kad_desc(kad_names()[4], kad_labels()[4]));
        let errors = taken.pop().unwrap();
        let received_responses = taken.pop().unwrap();
        let sent_responses = taken.pop().unwrap();
        let received_requests = taken.pop().unwrap();
        let sent_requests = taken.pop().unwrap();
        Ok(
            Metrics {
                inner: Inner::Enabled(
                    InnerMetrics {
                        sent_requests,
                        received_responses,
                        received_requests,
                        sent_responses,
                        errors,
                        records_stored,
                    },
                ),
            },
        )
    }
}

/// The full name of a metric of the node is its name behind a prefix.
pub proof fn name_has_prefix(name: Seq<char>)
    requires
        name.len() > 0,
    ensures
        kad_name(name) == "libp2p_kad_"@ + name,
{
    reveal_strlit("libp2p");
    reveal_strlit("kad");
    reveal_strlit("libp2p_kad_");
    assert("libp2p"@ =~= seq!['l', 'i', 'b', 'p', '2', 'p']);
    assert("kad"@ =~= seq!['k', 'a', 'd']);
    assert("libp2p_kad_"@ =~= seq!['l', 'i', 'b', 'p', '2', 'p', '_', 'k', 'a', 'd', '_']);
    assert(kad_name(name) =~= "libp2p_kad_"@ + name);
}

/// A metric is described by its full name, its name and its labels, in this order.
pub proof fn description_has_parts(name: Seq<char>, labels: Seq<Seq<char>>)
    ensures
        kad_desc(name, labels).len() == labels.len() + 2,
        kad_desc(name, labels)[0] == kad_name(name),
        kad_desc(name, labels)[1] == name,
        kad_desc(name, labels).skip(2) == labels,
{
    assert(kad_desc(name, labels).skip(2) =~= labels);
}

/// Requests that are sent and received are told apart by the same labels, and so are
/// responses. All kinds of requests but `add_provider` have a response, and the gauge has no
/// label.
pub proof fn labels_of_requests_and_responses()
    ensures
        kad_labels().len() == kad_names().len() == 6,
        kad_labels()[0] == kad_labels()[1],
        kad_labels()[2] == kad_labels()[3],
        forall|label: Seq<char>|
            request_labels().contains(label) <==> label == "add_provider"@ || #[trigger]
                response_labels().contains(label),
        !response_labels().contains("add_provider"@),
        request_labels() == seq![
            "find_node"@,
            "get_providers"@,
            "add_provider"@,
            "get_record"@,
            "put_record"@,
        ],
        kad_labels()[4].len() == 1,
        kad_labels()[5].len() == 0,
{
    labels_are_labels();
    let requests = request_labels();
    let responses = response_labels();
    assert(requests[2] == "add_provider"@);
    assert(responses[0] == requests[0] && responses[1] == requests[1]);
    assert(responses[2] == requests[3] && responses[3] == requests[4]);
    assert(!responses.contains("add_provider"@)) by {
        assert(requests.no_duplicates());
        if responses.contains("add_provider"@) {
            let i = choose|i: int| 0 <= i < responses.len() && responses[i] == "add_provider"@;
            assert(responses[i] == requests[if i < 2 {
                i
            } else {
                i + 1
            }]);
        }
    }
    assert forall|label: Seq<char>|
        requests.contains(label) <==> label == "add_provider"@ || #[trigger] responses.contains(
            label,
        ) by {
        if requests.contains(label) {
            let i = choose|i: int| 0 <= i < requests.len() && requests[i] == label;
            if i < 2 {
                assert(responses[i] == label);
            } else if i > 2 {
                assert(responses[i - 1] == label);
            }
        }
        if responses.contains(label) {
            let i = choose|i: int| 0 <= i < responses.len() && responses[i] == label;
            if i < 2 {
                assert(requests[i] == label);
            } else {
                assert(requests[i + 1] == label);
            }
        }
    }
}

/// Each metric of a node is described by the name and the labels with which it is
/// registered.
pub proof fn metrics_follow_names()
    ensures
        ({
            let m = kad_metrics();
            let names = kad_names();
            let labels = kad_labels();
            &&& m.sent_requests == kad_desc(names[0], labels[0])
            &&& m.received_requests == kad_desc(names[1], labels[1])
            &&& m.sent_responses == kad_desc(names[2], labels[2])
            &&& m.received_responses == kad_desc(names[3], labels[3])
            &&& m.errors == kad_desc(names[4], labels[4])
            &&& m.records_stored == kad_desc(names[5], labels[5])
        }),
{
}

} // verus!
