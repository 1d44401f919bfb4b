//! Audio device capabilities, as reported to clients, and the rules that turn
//! what the host tells about each device into the device list.
use vstd::prelude::*;

verus! {

/// The supported buffer sizes of a device.
#[derive(Debug)]
pub struct BufferSizeRange {
    pub min: u32,
    pub max: u32,
    pub preferred: Vec<u32>,
}

/// Device capability info.
#[derive(Debug)]
pub struct DeviceInfo {
    pub id: String,
    pub name: String,
    pub host_api: String,
    pub is_input: bool,
    pub is_output: bool,
    pub channel_count: u16,
    pub channel_layout: Vec<String>,
    pub supported_sample_rates: Vec<u32>,
    pub supported_buffer_sizes: BufferSizeRange,
    pub supported_formats: Vec<String>,
    pub is_default: bool,
}

/// Every device of a host, split by direction.
#[derive(Debug)]
pub struct DeviceList {
    pub inputs: Vec<DeviceInfo>,
    pub outputs: Vec<DeviceInfo>,
    pub host_apis: Vec<String>,
}

pub open spec fn texts(v: Seq<String>) -> Seq<Seq<char>> {
    v.map_values(|s: String| s@)
}

/// A device description with its texts and lists taken as plain values.
pub struct DeviceInfoView {
    pub id: Seq<char>,
    pub name: Seq<char>,
    pub host_api: Seq<char>,
    pub is_input: bool,
    pub is_output: bool,
    pub channel_count: u16,
    pub channel_layout: Seq<Seq<char>>,
    pub supported_sample_rates: Seq<u32>,
    pub buffer_min: u32,
    pub buffer_max: u32,
    pub buffer_preferred: Seq<u32>,
    pub supported_formats: Seq<Seq<char>>,
    pub is_default: bool,
}

impl View for DeviceInfo {
    type V = DeviceInfoView;

    open spec fn view(&self) -> DeviceInfoView {
        DeviceInfoView {
            id: self.id@,
            name: self.name@,
            host_api: self.host_api@,
            is_input: self.is_input,
            is_output: self.is_output,
            channel_count: self.channel_count,
            channel_layout: texts(self.channel_layout@),
            supported_sample_rates: self.supported_sample_rates@,
            buffer_min: self.supported_buffer_sizes.min,
            buffer_max: self.supported_buffer_sizes.max,
            buffer_preferred: self.supported_buffer_sizes.preferred@,
            supported_formats: texts(self.supported_formats@),
            is_default: self.is_default,
        }
    }
}

fn clone_texts(v: &Vec<String>) -> (out: Vec<String>)
    ensures
        texts(out@) == texts(v@),
{
    let mut out: Vec<String> = Vec::new();
    let mut i: usize = 0;
    while i < v.len()
        invariant
            i <= v@.len(),
            texts(out@) == texts(v@).subrange(0, i as int),
        decreases v@.len() - i,
    {
        let ghost prev = out@;
        let s = v[i].clone();
        out.push(s);
        assert(texts(out@) =~= texts(prev).push(s@));
        i = i + 1;
        assert(texts(out@) =~= texts(v@).subrange(0, i as int));
    }
    assert(texts(v@).subrange(0, v@.len() as int) =~= texts(v@));
    out
}

fn clone_u32s(v: &Vec<u32>) -> (out: Vec<u32>)
    ensures
        out@ == v@,
{
    let mut out: Vec<u32> = Vec::new();
    let mut i: usize = 0;
    while i < v.len()
        invariant
            i <= v@.len(),
            out@ == v@.subrange(0, i as int),
        decreases v@.len() - i,
    {
        out.push(v[i]);
        i = i + 1;
        assert(out@ =~= v@.subrange(0, i as int));
    }
    assert(v@.subrange(0, v@.len() as int) =~= v@);
    out
}

impl Clone for DeviceInfo {
    fn clone(&self) -> (c: Self)
        ensures
            c@ == self@,
    {
        DeviceInfo {
            id: self.id.clone(),
            name: self.name.clone(),
            host_api: self.host_api.clone(),
            is_input: self.is_input,
            is_output: self.is_output,
            channel_count: self.channel_count,
            channel_layout: clone_texts(&self.channel_layout),
            supported_sample_rates: clone_u32s(&self.supported_sample_rates),
            supported_buffer_sizes: BufferSizeRange {
                min: self.supported_buffer_sizes.min,
                max: self.supported_buffer_sizes.max,
                preferred: clone_u32s(&self.supported_buffer_sizes.preferred),
            },
            supported_formats: clone_texts(&self.supported_formats),
            is_default: self.is_default,
        }
    }
}

/// `s` is strictly increasing.
pub open spec fn strictly_increasing(s: Seq<u32>) -> bool {
    forall|i: int, j: int| 0 <= i < j < s.len() ==> s[i] < s[j]
}

/// The distinct values of `s` in increasing order.
pub open spec fn sorted_distinct(s: Seq<u32>) -> Seq<u32> {
    choose|o: Seq<u32>| strictly_increasing(o) && o.to_set() == s.to_set()
}

/// The rates a device lists: the distinct values it reported in increasing
/// order, or a fixed fallback where the query failed.
pub open spec fn rates_spec(reported: Option<Seq<u32>>) -> Seq<u32> {
    match reported {
        Some(r) => sorted_distinct(r),
        None => seq![44100u32, 48000u32, 96000u32],
    }
}

proof fn lemma_increasing_drop_first(a: Seq<u32>)
    requires
        strictly_increasing(a),
        a.len() > 0,
    ensures
        a.drop_first().to_set() == a.to_set().remove(a[0]),
        forall|y: u32| a.to_set().contains(y) ==> a[0] <= y,
{
    assert forall|y: u32| a.drop_first().to_set().contains(y) <==> a.to_set().remove(a[0]).contains(y) by {
        if a.drop_first().contains(y) {
            let p = choose|p: int| 0 <= p < a.drop_first().len() && a.drop_first()[p] == y;
            assert(a[p + 1] == y);
            assert(a[0] < a[p + 1]);
        }
        if a.contains(y) && y != a[0] {
            let p = choose|p: int| 0 <= p < a.len() && a[p] == y;
            assert(p != 0);
            assert(a.drop_first()[p - 1] == y);
        }
    }
    assert(a.drop_first().to_set() =~= a.to_set().remove(a[0]));
    assert forall|y: u32| a.to_set().contains(y) implies a[0] <= y by {
        let p = choose|p: int| 0 <= p < a.len() && a[p] == y;
        if p > 0 {
            assert(a[0] < a[p]);
        }
    }
}

/// Two strictly increasing sequences with the same values are the same sequence.
proof fn lemma_increasing_unique(a: Seq<u32>, b: Seq<u32>)
    requires
        strictly_increasing(a),
        strictly_increasing(b),
        a.to_set() == b.to_set(),
    ensures
        a == b,
    decreases a.len(),
{
    if a.len() == 0 {
        if b.len() > 0 {
            assert(b.to_set().contains(b[0]));
        }
        assert(a =~= b);
    } else if b.len() == 0 {
        assert(a.to_set().contains(a[0]));
    } else {
        lemma_increasing_drop_first(a);
        lemma_increasing_drop_first(b);
        assert(a.to_set().contains(a[0]));
        assert(b.to_set().contains(b[0]));
        assert(a[0] == b[0]);
        lemma_increasing_unique(a.drop_first(), b.drop_first());
        assert(a =~= seq![a[0]] + a.drop_first());
        assert(b =~= seq![b[0]] + b.drop_first());
    }
}

/// `x` put into its place in the strictly increasing `o`, unless it is there.
spec fn insert_spec(o: Seq<u32>, x: u32) -> Seq<u32>
    decreases o.len(),
{
    if o.len() == 0 {
        seq![x]
    } else if x < o[0] {
        seq![x] + o
    } else if x == o[0] {
        o
    } else {
        seq![o[0]] + insert_spec(o.drop_first(), x)
    }
}

proof fn lemma_insert_spec(o: Seq<u32>, x: u32)
    requires
        strictly_increasing(o),
    ensures
        strictly_increasing(insert_spec(o, x)),
        forall|y: u32| #[trigger] insert_spec(o, x).contains(y) <==> (o.contains(y) || y == x),
    decreases o.len(),
{
    let r = insert_spec(o, x);
    if o.len() == 0 {
        assert forall|y: u32| r.contains(y) <==> (o.contains(y) || y == x) by {
            if y == x {
                assert(r[0] == x);
            }
        }
    } else if x < o[0] {
        assert forall|i: int, j: int| 0 <= i < j < r.len() implies r[i] < r[j] by {
            if i > 0 {
                assert(r[i] == o[i - 1] && r[j] == o[j - 1]);
            } else {
                assert(r[j] == o[j - 1]);
                if j - 1 > 0 {
                    assert(o[0] < o[j - 1]);
                }
            }
        }
        assert forall|y: u32| r.contains(y) <==> (o.contains(y) || y == x) by {
            if r.contains(y) {
                let p = choose|p: int| 0 <= p < r.len() && r[p] == y;
                if p > 0 {
                    assert(o[p - 1] == y);
                }
            }
            if o.contains(y) {
                let p = choose|p: int| 0 <= p < o.len() && o[p] == y;
                assert(r[p + 1] == y);
            }
            if y == x {
                assert(r[0] == x);
            }
        }
    } else if x == o[0] {
    } else {
        let t = o.drop_first();
        assert forall|i: int, j: int| 0 <= i < j < t.len() implies t[i] < t[j] by {
            assert(t[i] == o[i + 1] && t[j] == o[j + 1]);
        }
        lemma_insert_spec(t, x);
        let rt = insert_spec(t, x);
        assert(r == seq![o[0]] + rt);
        assert forall|k: int| 0 <= k < rt.len() implies o[0] < rt[k] by {
            let y = rt[k];
            assert(rt.contains(y));
            assert(t.contains(y) || y == x);
            if y != x {
                let p = choose|p: int| 0 <= p < t.len() && t[p] == y;
                assert(o[p + 1] == y);
            }
        }
        assert forall|i: int, j: int| 0 <= i < j < r.len() implies r[i] < r[j] by {
            if i > 0 {
                assert(r[i] == rt[i - 1] && r[j] == rt[j - 1]);
            } else {
                assert(r[j] == rt[j - 1]);
            }
        }
        assert forall|y: u32| r.contains(y) <==> (o.contains(y) || y == x) by {
            if r.contains(y) {
                let p = choose|p: int| 0 <= p < r.len() && r[p] == y;
                if p > 0 {
                    assert(rt[p - 1] == y);
                    assert(rt.contains(y));
                    if t.contains(y) {
                        let q = choose|q: int| 0 <= q < t.len() && t[q] == y;
                        assert(o[q + 1] == y);
                    }
                }
            }
            if o.contains(y) {
                let p = choose|p: int| 0 <= p < o.len() && o[p] == y;
                if p > 0 {
                    assert(t[p - 1] == y);
                    assert(t.contains(y));
                    assert(rt.contains(y));
                    let q = choose|q: int| 0 <= q < rt.len() && rt[q] == y;
                    assert(r[q + 1] == y);
                } else {
                    assert(r[0] == y);
                }
            }
            if y == x {
                assert(rt.contains(x));
                let q = choose|q: int| 0 <= q < rt.len() && rt[q] == x;
                assert(r[q + 1] == x);
            }
        }
    }
}

/// Every run of rates has its distinct values in increasing order.
proof fn lemma_sorted_distinct(s: Seq<u32>)
    ensures
        strictly_increasing(sorted_distinct(s)),
        sorted_distinct(s).to_set() == s.to_set(),
    decreases s.len(),
{
    let o = sorted_witness(s);
    assert(strictly_increasing(o) && o.to_set() == s.to_set());
}

proof fn sorted_witness(s: Seq<u32>) -> (o: Seq<u32>)
    ensures
        strictly_increasing(o),
        o.to_set() == s.to_set(),
    decreases s.len(),
{
    if s.len() == 0 {
        let o = Seq::<u32>::empty();
        assert(o.to_set() =~= s.to_set());
        o
    } else {
        let prev = sorted_witness(s.drop_last());
        let x = s.last();
        lemma_insert_spec(prev, x);
        let o = insert_spec(prev, x);
        assert(s == s.drop_last().push(x));
        lemma_push_to_set(s.drop_last(), x);
        assert forall|y: u32| o.to_set().contains(y) <==> s.drop_last().to_set().insert(x).contains(y) by {
            assert(prev.to_set().contains(y) <==> s.drop_last().to_set().contains(y));
        }
        assert(o.to_set() =~= s.to_set());
        o
    }
}

/// Sort the reported rates and drop repeats; fall back to common rates where the
/// query failed.
pub fn collect_sample_rates(reported: Option<Vec<u32>>) -> (rates: Vec<u32>)
    ensures
        rates@ == rates_spec(
            match reported {
                Some(r) => Some(r@),
                None => None,
            },
        ),
        reported is Some ==> strictly_increasing(rates@) && rates@.to_set() == reported->0@.to_set(),
{
    match reported {
        None => {
            let mut v: Vec<u32> = Vec::new();
            v.push(44100);
            v.push(48000);
            v.push(96000);
            assert(v@ =~= seq![44100u32, 48000u32, 96000u32]);
            v
        },
        Some(raw) => {
            let mut out: Vec<u32> = Vec::new();
            let mut i: usize = 0;
            while i < raw.len()
                invariant
                    i <= raw@.len(),
                    strictly_increasing(out@),
                    out@.to_set() == raw@.subrange(0, i as int).to_set(),
                decreases raw@.len() - i,
            {
                let x = raw[i];
                let ghost before = out@;
                insert_sorted(&mut out, x);
                assert(raw@.subrange(0, i + 1) =~= raw@.subrange(0, i as int).push(x));
                proof {
                    lemma_push_to_set(raw@.subrange(0, i as int), x);
                }
                i = i + 1;
            }
            assert(raw@.subrange(0, raw@.len() as int) =~= raw@);
            proof {
                let o = sorted_distinct(raw@);
                assert(strictly_increasing(o) && o.to_set() == raw@.to_set());
                lemma_increasing_unique(o, out@);
            }
            out
        },
    }
}

proof fn lemma_push_to_set(s: Seq<u32>, x: u32)
    ensures
        s.push(x).to_set() == s.to_set().insert(x),
{
    assert forall|y: u32| s.push(x).to_set().contains(y) <==> s.to_set().insert(x).contains(y) by {
        if s.push(x).contains(y) {
            let p = choose|p: int| 0 <= p < s.push(x).len() && s.push(x)[p] == y;
            if p < s.len() {
                assert(s[p] == y);
            }
        }
        if s.contains(y) {
            let p = choose|p: int| 0 <= p < s.len() && s[p] == y;
            assert(s.push(x)[p] == y);
        }
        if y == x {
            assert(s.push(x)[s.len() as int] == x);
        }
    }
    assert(s.push(x).to_set() =~= s.to_set().insert(x));
}

/// Insert `x` into a strictly increasing vector unless it is already there.
fn insert_sorted(v: &mut Vec<u32>, x: u32)
    requires
        strictly_increasing(old(v)@),
    ensures
        strictly_increasing(final(v)@),
        final(v)@.to_set() == old(v)@.to_set().insert(x),
{
    let mut k: usize = 0;
    while k < v.len() && v[k] < x
        invariant
            k <= v@.len(),
            forall|j: int| 0 <= j < k ==> v@[j] < x,
        decreases v@.len() - k,
    {
        k = k + 1;
    }
    if k < v.len() && v[k] == x {
        proof {
            assert(old(v)@.contains(x));
            assert(old(v)@.to_set().insert(x) =~= old(v)@.to_set());
        }
        return;
    }
    let ghost before = v@;
    v.insert(k, x);
    assert(v@ =~= before.subrange(0, k as int).push(x) + before.subrange(k as int, before.len() as int));
    proof {
        assert forall|i: int, j: int| 0 <= i < j < v@.len() implies v@[i] < v@[j] by {
            if j < k {
            } else if j == k {
            } else if i < k {
                assert(before[j - 1] > x || before[j - 1] == x || before[j - 1] < x);
                assert(v@[j] == before[j - 1]);
                assert(before[k as int] > x);
                if j - 1 > k {
                    assert(before[k as int] < before[j - 1]);
                }
            } else if i == k {
                assert(v@[j] == before[j - 1]);
                if j - 1 > k {
                    assert(before[k as int] < before[j - 1]);
                }
            } else {
                assert(v@[i] == before[i - 1]);
                assert(v@[j] == before[j - 1]);
            }
        }
        assert forall|y: u32| v@.to_set().contains(y) <==> before.to_set().insert(x).contains(y) by {
            if v@.contains(y) {
                let p = choose|p: int| 0 <= p < v@.len() && v@[p] == y;
                if p < k {
                    assert(before[p] == y);
                } else if p > k {
                    assert(before[p - 1] == y);
                }
            }
            if before.contains(y) {
                let p = choose|p: int| 0 <= p < before.len() && before[p] == y;
                if p < k {
                    assert(v@[p] == y);
                } else {
                    assert(v@[p + 1] == y);
                }
            }
            if y == x {
                assert(v@[k as int] == x);
            }
        }
        assert(v@.to_set() =~= before.to_set().insert(x));
    }
}

} // verus!

verus! {

/// What the host reports about one direction of a device: its default channel
/// count and the rate bounds of each supported configuration (`None` where that
/// query failed).
#[derive(Debug)]
pub struct PortProbe {
    pub channels: u16,
    pub rates: Option<Vec<u32>>,
}

/// What the host reports about a device: its name (`None` where that query
/// failed) and each direction that has a default configuration.
#[derive(Debug)]
pub struct DeviceProbe {
    pub name: Option<String>,
    pub input: Option<PortProbe>,
    pub output: Option<PortProbe>,
}

pub open spec fn rates_of(p: PortProbe) -> Seq<u32> {
    rates_spec(
        match p.rates {
            Some(r) => Some(r@),
            None => None,
        },
    )
}

pub open spec fn device_name(p: DeviceProbe) -> Seq<char> {
    match p.name {
        Some(n) => n@,
        None => "Unknown"@,
    }
}

/// The description of a probed device: the output direction's channels and
/// rates win over the input's, and a device with neither keeps the defaults.
pub open spec fn info_spec(host: Seq<char>, p: DeviceProbe) -> DeviceInfoView {
    let name = device_name(p);
    DeviceInfoView {
        id: host + ":"@ + name,
        name: name,
        host_api: host,
        is_input: p.input is Some,
        is_output: p.output is Some,
        channel_count: match p.output {
            Some(o) => o.channels,
            None => match p.input {
                Some(i) => i.channels,
                None => 2,
            },
        },
        channel_layout: seq!["L"@, "R"@],
        supported_sample_rates: match p.output {
            Some(o) => rates_of(o),
            None => match p.input {
                Some(i) => rates_of(i),
                None => seq![44100u32, 48000u32, 88200u32, 96000u32, 192000u32],
            },
        },
        buffer_min: 16,
        buffer_max: 4096,
        buffer_preferred: seq![64u32, 128u32, 256u32, 512u32, 1024u32],
        supported_formats: seq!["f32"@, "i16"@, "i32"@],
        is_default: false,
    }
}

pub open spec fn is_default_named(default: Option<Seq<char>>, name: Seq<char>) -> bool {
    default == Some(name)
}

/// The inputs list: the default input device, marked as default, and every
/// other device that can record, in host order.
pub open spec fn input_entries(infos: Seq<DeviceInfoView>, default_in: Option<Seq<char>>) -> Seq<
    DeviceInfoView,
>
    decreases infos.len(),
{
    if infos.len() == 0 {
        Seq::empty()
    } else {
        let prev = input_entries(infos.drop_last(), default_in);
        let i = infos.last();
        if is_default_named(default_in, i.name) {
            prev.push(DeviceInfoView { is_default: true, ..i })
        } else if i.is_input {
            prev.push(i)
        } else {
            prev
        }
    }
}

/// The outputs list: the default output device, marked as default, and every
/// other device that can play, in host order. A device that is the default
/// input carries that mark here too.
pub open spec fn output_entries(
    infos: Seq<DeviceInfoView>,
    default_in: Option<Seq<char>>,
    default_out: Option<Seq<char>>,
) -> Seq<DeviceInfoView>
    decreases infos.len(),
{
    if infos.len() == 0 {
        Seq::empty()
    } else {
        let prev = output_entries(infos.drop_last(), default_in, default_out);
        let i = infos.last();
        let base = if is_default_named(default_in, i.name) {
            DeviceInfoView { is_default: true, ..i }
        } else {
            i
        };
        if is_default_named(default_out, i.name) {
            prev.push(DeviceInfoView { is_default: true, ..base })
        } else if i.is_output {
            prev.push(base)
        } else {
            prev
        }
    }
}

pub open spec fn infos_of(host: Seq<char>, probes: Seq<DeviceProbe>) -> Seq<DeviceInfoView> {
    probes.map_values(|p: DeviceProbe| info_spec(host, p))
}

pub open spec fn info_views(v: Seq<DeviceInfo>) -> Seq<DeviceInfoView> {
    v.map_values(|d: DeviceInfo| d@)
}

pub open spec fn name_view(n: Option<String>) -> Option<Seq<char>> {
    match n {
        Some(s) => Some(s@),
        None => None,
    }
}

fn text_vec2(a: &str, b: &str) -> (v: Vec<String>)
    ensures
        texts(v@) == seq![a@, b@],
{
    let mut v: Vec<String> = Vec::new();
    v.push(a.to_owned());
    v.push(b.to_owned());
    assert(texts(v@) =~= seq![a@, b@]);
    v
}

fn text_vec3(a: &str, b: &str, c: &str) -> (v: Vec<String>)
    ensures
        texts(v@) == seq![a@, b@, c@],
{
    let mut v: Vec<String> = Vec::new();
    v.push(a.to_owned());
    v.push(b.to_owned());
    v.push(c.to_owned());
    assert(texts(v@) =~= seq![a@, b@, c@]);
    v
}

/// Describe one probed device of the host `host`.
pub fn device_info(host: &str, probe: &DeviceProbe) -> (info: DeviceInfo)
    ensures
        info@ == info_spec(host@, *probe),
{
    let name = match &probe.name {
        Some(n) => n.clone(),
        None => String::from_str("Unknown"),
    };
    let mut id = host.to_owned();
    id.append(":");
    id.append(name.as_str());
    let mut channel_count: u16 = 2;
    let mut default_rates: Vec<u32> = Vec::new();
    default_rates.push(44100);
    default_rates.push(48000);
    default_rates.push(88200);
    default_rates.push(96000);
    default_rates.push(192000);
    let mut rates = default_rates;
    assert(rates@ =~= seq![44100u32, 48000u32, 88200u32, 96000u32, 192000u32]);
    let mut is_input = false;
    let mut is_output = false;
    match &probe.input {
        Some(p) => {
            is_input = true;
            channel_count = p.channels;
            rates = collect_sample_rates(clone_rates(&p.rates));
        },
        None => {},
    }
    match &probe.output {
        Some(p) => {
            is_output = true;
            channel_count = p.channels;
            rates = collect_sample_rates(clone_rates(&p.rates));
        },
        None => {},
    }
    let mut preferred: Vec<u32> = Vec::new();
    preferred.push(64);
    preferred.push(128);
    preferred.push(256);
    preferred.push(512);
    preferred.push(1024);
    assert(preferred@ =~= seq![64u32, 128u32, 256u32, 512u32, 1024u32]);
    let info = DeviceInfo {
        id: id,
        name: name,
        host_api: host.to_owned(),
        is_input,
        is_output,
        channel_count,
        channel_layout: text_vec2("L", "R"),
        supported_sample_rates: rates,
        supported_buffer_sizes: BufferSizeRange { min: 16, max: 4096, preferred },
        supported_formats: text_vec3("f32", "i16", "i32"),
        is_default: false,
    };
    info
}

fn clone_rates(r: &Option<Vec<u32>>) -> (c: Option<Vec<u32>>)
    ensures
        match (c, *r) {
            (Some(a), Some(b)) => a@ == b@,
            (None, None) => true,
            _ => false,
        },
{
    match r {
        Some(v) => Some(clone_u32s(v)),
        None => None,
    }
}

fn same_name(default: &Option<String>, name: &String) -> (b: bool)
    ensures
        b == is_default_named(name_view(*default), name@),
{
    match default {
        Some(d) => *d == *name,
        None => false,
    }
}

/// Split the probed devices of host `host` into inputs and outputs, marking the
/// host's default devices (named `default_in` and `default_out`).
pub fn build_device_list(
    host: String,
    probes: &Vec<DeviceProbe>,
    default_in: &Option<String>,
    default_out: &Option<String>,
) -> (list: DeviceList)
    ensures
        info_views(list.inputs@) == input_entries(infos_of(host@, probes@), name_view(*default_in)),
        info_views(list.outputs@) == output_entries(
            infos_of(host@, probes@),
            name_view(*default_in),
            name_view(*default_out),
        ),
        texts(list.host_apis@) == seq![host@],
{
    let mut inputs: Vec<DeviceInfo> = Vec::new();
    let mut outputs: Vec<DeviceInfo> = Vec::new();
    let ghost din = name_view(*default_in);
    let ghost dout = name_view(*default_out);
    let mut i: usize = 0;
    while i < probes.len()
        invariant
            i <= probes@.len(),
            din == name_view(*default_in),
            dout == name_view(*default_out),
            info_views(inputs@) == input_entries(infos_of(host@, probes@).subrange(0, i as int), din),
            info_views(outputs@) == output_entries(
                infos_of(host@, probes@).subrange(0, i as int),
                din,
                dout,
            ),
        decreases probes@.len() - i,
    {
        let ghost infos = infos_of(host@, probes@);
        let ghost prev_in = inputs@;
        let ghost prev_out = outputs@;
        let mut info = device_info(host.as_str(), &probes[i]);
        assert(infos.subrange(0, i + 1).drop_last() =~= infos.subrange(0, i as int));
        assert(infos.subrange(0, i + 1).last() == info@);
        if same_name(default_in, &info.name) {
            info.is_default = true;
            inputs.push(info.clone());
            assert(info_views(inputs@) =~= info_views(prev_in).push(info@));
        } else if info.is_input {
            inputs.push(info.clone());
            assert(info_views(inputs@) =~= info_views(prev_in).push(info@));
        } else {
            assert(inputs@ == prev_in);
        }
        if same_name(default_out, &info.name) {
            let mut out_info = info.clone();
            out_info.is_default = true;
            outputs.push(out_info);
            assert(info_views(outputs@) =~= info_views(prev_out).push(out_info@));
        } else if info.is_output {
            outputs.push(info);
            assert(info_views(outputs@) =~= info_views(prev_out).push(info@));
        } else {
            assert(outputs@ == prev_out);
        }
        i = i + 1;
    }
    assert(infos_of(host@, probes@).subrange(0, probes@.len() as int) =~= infos_of(host@, probes@));
    let mut host_apis: Vec<String> = Vec::new();
    let ghost h = host@;
    host_apis.push(host);
    assert(texts(host_apis@) =~= seq![h]);
    DeviceList { inputs, outputs, host_apis }
}

/// The settings an output stream opens with: its rate, its channel count and a
/// fixed buffer size, or `None` for the device's own buffer size.
#[derive(Debug, Clone, Copy, PartialEq, Eq)]
pub struct StreamSettings {
    pub sample_rate: u32,
    pub channels: u16,
    pub buffer_size: Option<u32>,
}

/// The settings to open an output stream with, from the device's default rate and
/// channel count and what was asked for; 0 asks for the device's default.
pub fn choose_stream_settings(
    default_rate: u32,
    default_channels: u16,
    requested_rate: u32,
    requested_channels: u16,
    requested_buffer_size: u32,
) -> (s: StreamSettings)
    ensures
        s.sample_rate == (if requested_rate == 0 { default_rate } else { requested_rate }),
        s.channels == (if requested_channels == 0 { default_channels } else { requested_channels }),
        s.buffer_size == (if requested_buffer_size == 0 { None } else { Some(requested_buffer_size) }),
{
    StreamSettings {
        sample_rate: if requested_rate == 0 {
            default_rate
        } else {
            requested_rate
        },
        channels: if requested_channels == 0 {
            default_channels
        } else {
            requested_channels
        },
        buffer_size: if requested_buffer_size == 0 {
            None
        } else {
            Some(requested_buffer_size)
        },
    }
}

/// A device with an output lists the rates its output reported, distinct and in
/// increasing order, or the fallback rates where that query failed; whether it
/// can also record does not change them.
pub proof fn lemma_output_rates(host: Seq<char>, p: DeviceProbe)
    requires
        p.output is Some,
    ensures
        ({
            let listed = info_spec(host, p).supported_sample_rates;
            &&& match p.output->0.rates {
                Some(r) => strictly_increasing(listed) && listed.to_set() == r@.to_set(),
                None => listed == seq![44100u32, 48000u32, 96000u32],
            }
            &&& listed == info_spec(host, DeviceProbe { input: None, ..p }).supported_sample_rates
        }),
{
    if let Some(r) = p.output->0.rates {
        lemma_sorted_distinct(r@);
    }
}

} // verus!
