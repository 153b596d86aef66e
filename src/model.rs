//! The external node model (the "user model" of the SOL tool) and the
//! daemon's configuration, as plain values.

use vstd::prelude::*;
use vstd::string::StringSliceAdditionalSpecFns;
use vstd::string::StringExecFns;
use vstd::utf8::encode_utf8;

use crate::addr_map::key_views;
use crate::image_header::{parse_u8, parse_u8_spec, split_bytes, split_spec};
use crate::wire::NodeAddress;

verus! {

/// A ballast of the model.
#[derive(Clone, Debug)]
pub struct Ballast {
    pub address: String,
    pub type_id: String,
    pub name: String,
}

/// A sensor of the model; one that is part of another device has no node
/// of its own.
#[derive(Clone, Debug)]
pub struct Sensor {
    pub address: String,
    pub type_id: String,
    pub name: String,
    pub part_of: Option<String>,
}

#[derive(Clone, Debug)]
pub struct Network {
    pub ballasts: Vec<Ballast>,
    pub sensors: Vec<Sensor>,
}

#[derive(Clone, Debug)]
pub struct UserModel {
    pub network: Option<Network>,
}

/// The node address that the text `b` writes: four hexadecimal bytes
/// separated by colons, after two zero bytes.
pub open spec fn user_address_spec(b: Seq<u8>) -> Option<Seq<u8>> {
    let parts = split_spec(b, 58);
    if parts.len() == 4 && (forall|i: int| 0 <= i < 4 ==> (#[trigger] parse_u8_spec(parts[i], 16)) is Some) {
        Some(seq![0u8, 0u8, parse_u8_spec(parts[0], 16)->Some_0, parse_u8_spec(parts[1], 16)->Some_0,
            parse_u8_spec(parts[2], 16)->Some_0, parse_u8_spec(parts[3], 16)->Some_0])
    } else {
        None
    }
}

/// Reads an address of the model, `aa:bb:cc:dd`, into a node address
/// `00:00:aa:bb:cc:dd`.
pub fn parse_user_address(node_address: &str) -> (r: Option<NodeAddress>)
    ensures
        match user_address_spec(node_address.spec_bytes()) {
            Some(a) => r is Some && r->Some_0@ == a,
            None => r is None,
        },
{
    let parts = split_bytes(node_address.as_bytes(), 58);
    if parts.len() != 4 {
        return None;
    }
    let b0 = parse_u8(parts[0].as_slice(), 16);
    let b1 = parse_u8(parts[1].as_slice(), 16);
    let b2 = parse_u8(parts[2].as_slice(), 16);
    let b3 = parse_u8(parts[3].as_slice(), 16);
    match (b0, b1, b2, b3) {
        (Some(x0), Some(x1), Some(x2), Some(x3)) => {
            let a: NodeAddress = [0, 0, x0, x1, x2, x3];
            proof {
                let ps = split_spec(node_address.spec_bytes(), 58);
                assert forall|i: int| 0 <= i < 4 implies (#[trigger] parse_u8_spec(ps[i], 16)) is Some by {
                    assert(parts@[i]@ == ps[i]);
                }
                assert(a@ =~= user_address_spec(node_address.spec_bytes())->Some_0);
            }
            Some(a)
        },
        _ => {
            proof {
                let ps = split_spec(node_address.spec_bytes(), 58);
                assert(parts@[0]@ == ps[0]);
                assert(parts@[1]@ == ps[1]);
                assert(parts@[2]@ == ps[2]);
                assert(parts@[3]@ == ps[3]);
            }
            None
        },
    }
}

/// The address texts of the sensors that are not part of another device.
pub open spec fn sensor_texts(ss: Seq<Sensor>) -> Seq<Seq<char>>
    decreases ss.len(),
{
    if ss.len() == 0 {
        Seq::empty()
    } else {
        let pre = sensor_texts(ss.drop_last());
        if ss.last().part_of is None {
            pre.push(ss.last().address@)
        } else {
            pre
        }
    }
}

/// The address texts of a model's nodes: every ballast, then every sensor
/// that is not part of another device.
pub open spec fn model_texts(m: UserModel) -> Seq<Seq<char>> {
    match m.network {
        None => Seq::empty(),
        Some(n) => Seq::new(n.ballasts@.len(), |i: int| n.ballasts@[i].address@) + sensor_texts(
            n.sensors@,
        ),
    }
}

/// Whether every text reads as an address.
pub open spec fn all_read(texts: Seq<Seq<char>>) -> bool {
    forall|i: int| 0 <= i < texts.len() ==> (#[trigger] user_address_spec(encode_utf8(texts[i]))) is Some
}

/// The addresses that the texts read as.
pub open spec fn read_all(texts: Seq<Seq<char>>) -> Seq<Seq<u8>> {
    Seq::new(texts.len(), |i: int| user_address_spec(encode_utf8(texts[i]))->Some_0)
}

fn push_read(out: &mut Vec<NodeAddress>, text: &String, Ghost(done): Ghost<Seq<Seq<char>>>) -> (ok: bool)
    requires
        all_read(done),
        key_views(old(out)@) == read_all(done),
    ensures
        ok == all_read(done.push(text@)),
        ok ==> key_views(final(out)@) == read_all(done.push(text@)),
{
    let s = text.as_str();
    match parse_user_address(s) {
        Some(a) => {
            out.push(a);
            proof {
                let d2 = done.push(text@);
                assert(s.spec_bytes() == encode_utf8(text@));
                assert forall|i: int| 0 <= i < d2.len() implies (#[trigger] user_address_spec(encode_utf8(d2[i]))) is Some by {
                    if i < done.len() {
                        assert(d2[i] == done[i]);
                    }
                }
                assert(key_views(old(out)@).len() == done.len());
                assert(key_views(out@).len() == d2.len());
                assert(key_views(out@) =~= read_all(d2)) by {
                    assert forall|i: int| 0 <= i < d2.len() implies key_views(out@)[i] == read_all(d2)[i] by {
                        if i < done.len() {
                            assert(key_views(old(out)@)[i] == read_all(done)[i]);
                            assert(out@[i] == old(out)@[i]);
                            assert(d2[i] == done[i]);
                        } else {
                            assert(d2[i] == text@);
                            assert(out@[i] == a);
                        }
                    }
                }
            }
            true
        },
        None => {
            proof {
                let d2 = done.push(text@);
                assert(d2[done.len() as int] == text@);
                assert(s.spec_bytes() == encode_utf8(text@));
            }
            false
        },
    }
}

/// The node addresses of a model: every ballast, then every sensor that is
/// not part of another device; `None` where an address does not read.
pub fn model_addresses(model: &UserModel) -> (r: Option<Vec<NodeAddress>>)
    ensures
        all_read(model_texts(*model)) ==> r is Some && key_views(r->Some_0@) == read_all(model_texts(*model)),
        !all_read(model_texts(*model)) ==> r is None,
{
    let mut out: Vec<NodeAddress> = Vec::new();
    match &model.network {
        None => {
            proof {
                assert(key_views(out@) =~= read_all(model_texts(*model)));
            }
            Some(out)
        },
        Some(net) => {
            let ghost bt = Seq::new(net.ballasts@.len(), |i: int| net.ballasts@[i].address@);
            proof {
                assert(model_texts(*model) == bt + sensor_texts(net.sensors@));
            }
            let mut i: usize = 0;
            while i < net.ballasts.len()
                invariant
                    0 <= i <= net.ballasts@.len(),
                    bt == Seq::new(net.ballasts@.len(), |i: int| net.ballasts@[i].address@),
                    model_texts(*model) == bt + sensor_texts(net.sensors@),
                    all_read(bt.subrange(0, i as int)),
                    key_views(out@) == read_all(bt.subrange(0, i as int)),
                decreases net.ballasts@.len() - i,
            {
                proof {
                    assert(bt.subrange(0, i + 1) =~= bt.subrange(0, i as int).push(net.ballasts@[i as int].address@));
                }
                if !push_read(&mut out, &net.ballasts[i].address, Ghost(bt.subrange(0, i as int))) {
                    proof {
                        assert(model_texts(*model)[i as int] == bt[i as int]);
                        assert(bt.subrange(0, i + 1)[i as int] == bt[i as int]);
                    }
                    return None;
                }
                i = i + 1;
            }
            proof {
                assert(bt.subrange(0, i as int) =~= bt);
            }
            let mut j: usize = 0;
            while j < net.sensors.len()
                invariant
                    0 <= j <= net.sensors@.len(),
                    model_texts(*model) == bt + sensor_texts(net.sensors@),
                    all_read(bt + sensor_texts(net.sensors@.subrange(0, j as int))),
                    key_views(out@) == read_all(bt + sensor_texts(net.sensors@.subrange(0, j as int))),
                decreases net.sensors@.len() - j,
            {
                let ghost done = bt + sensor_texts(net.sensors@.subrange(0, j as int));
                proof {
                    assert(net.sensors@.subrange(0, j + 1).drop_last() =~= net.sensors@.subrange(0, j as int));
                }
                if net.sensors[j].part_of.is_none() {
                    proof {
                        assert(bt + sensor_texts(net.sensors@.subrange(0, j + 1)) =~= done.push(net.sensors@[j as int].address@));
                    }
                    if !push_read(&mut out, &net.sensors[j].address, Ghost(done)) {
                        proof {
                            lemma_sensor_texts_prefix(net.sensors@, j as int + 1);
                            let full = model_texts(*model);
                            let k = done.len() as int;
                            assert(full == bt + sensor_texts(net.sensors@));
                            assert(full[k] == net.sensors@[j as int].address@);
                        }
                        return None;
                    }
                } else {
                    proof {
                        assert(bt + sensor_texts(net.sensors@.subrange(0, j + 1)) =~= done);
                    }
                }
                j = j + 1;
            }
            proof {
                assert(net.sensors@.subrange(0, j as int) =~= net.sensors@);
            }
            Some(out)
        },
    }
}

/// The texts of a prefix of sensors are a prefix of the texts of all.
proof fn lemma_sensor_texts_prefix(ss: Seq<Sensor>, k: int)
    requires
        0 <= k <= ss.len(),
    ensures
        sensor_texts(ss.subrange(0, k)).len() <= sensor_texts(ss).len(),
        forall|i: int| 0 <= i < sensor_texts(ss.subrange(0, k)).len() ==> sensor_texts(ss)[i] == #[trigger] sensor_texts(ss.subrange(0, k))[i],
    decreases ss.len() - k,
{
    if k < ss.len() {
        lemma_sensor_texts_prefix(ss, k + 1);
        assert(ss.subrange(0, k + 1).drop_last() =~= ss.subrange(0, k));
        let a = sensor_texts(ss.subrange(0, k));
        let b = sensor_texts(ss.subrange(0, k + 1));
        assert forall|i: int| 0 <= i < a.len() implies sensor_texts(ss)[i] == #[trigger] a[i] by {
            assert(b[i] == a[i]);
            assert(sensor_texts(ss)[i] == b[i]);
        }
    } else {
        assert(ss.subrange(0, k) =~= ss);
    }
}

/// Where the initial node list comes from.
#[derive(Clone, Debug)]
pub enum NodeModelSource {
    /// don't load initial node seed, only detect nodes
    DetectOnly,
    /// load initial node seed from SOL model
    SOL(String),
}

/// The daemon's configuration.
#[derive(Clone, Debug)]
pub struct Configuration {
    /// ptlink server address
    pub server_address: String,
    /// ptlink reconnect interval, seconds
    pub t_reconnect: u64,
    /// where to load initial node list from
    pub node_model_source: NodeModelSource,
}

impl Configuration {
    /// The gateway on the local host, a back-off of 10 s, and the SOL model
    /// under /var/lib/kvds.
    pub fn default() -> (r: Configuration)
        ensures
            r.server_address@ == "127.0.0.1:9885"@,
            r.t_reconnect == 10,
            r.node_model_source is SOL,
            r.node_model_source->SOL_0@ == "/var/lib/kvds"@,
    {
        Configuration {
            server_address: String::from_str("127.0.0.1:9885"),
            t_reconnect: 10,
            node_model_source: NodeModelSource::SOL(String::from_str("/var/lib/kvds")),
        }
    }

    /// Seconds to wait before reconnecting.
    pub fn reconnect_secs(&self) -> (r: u64)
        ensures
            r == self.t_reconnect,
    {
        self.t_reconnect
    }
}

/// Command line: an optional configuration file.
#[derive(Clone, Debug)]
pub struct Args {
    /// configuration file
    pub config: Option<String>,
}

} // verus!
