//! Building UDP-over-IPv4 datagrams sized to the link's transmission unit.
//!
//! The builder collects addresses and ports; `finalize_udp_with_data`
//! prepends the UDP header, and the fragment iterator cuts the result into
//! datagrams whose payloads fit the transmission unit, each under its own
//! IPv4 header.

use vstd::prelude::*;
use crate::ipv4;
use crate::udp;

verus! {

/// One wire-ready datagram: an IPv4 header followed by its payload slice.
pub struct IPV4Datagram(pub Vec<u8>);

/// Transmission-unit bounds under which fragmentation makes progress: room
/// for the header and at least one eight-byte payload unit, and lengths
/// that fit the sixteen-bit length field.
pub open spec fn spec_mtu_ok(mtu: int) -> bool {
    ipv4::HEADER_LEN + 8 <= mtu <= 0xffff
}

/// The builder's settings, as the contracts speak of them.
pub struct BuilderConfig {
    pub mtu: usize,
    pub identification: Option<u16>,
    pub do_not_fragment: bool,
    pub time_to_live: Option<u8>,
    pub src_ip: Option<ipv4::Address>,
    pub dest_ip: Option<ipv4::Address>,
    pub src_port: Option<u16>,
    pub dest_port: Option<u16>,
}

impl BuilderConfig {
    /// Everything an IPv4 header needs has been set.
    pub open spec fn ip_complete(self) -> bool {
        &&& self.identification is Some
        &&& self.time_to_live is Some
        &&& self.src_ip is Some
        &&& self.dest_ip is Some
    }

    /// Everything a UDP header needs has been set.
    pub open spec fn udp_complete(self) -> bool {
        self.src_port is Some && self.dest_port is Some
    }
}

/// Builder state for UDP-over-IPv4 datagrams.
#[derive(Clone, Copy)]
pub struct IPV4DatagramBuilder {
    mtu: usize,
    identification: Option<u16>,
    do_not_fragment: bool,
    time_to_live: Option<u8>,
    src_ip: Option<ipv4::Address>,
    dest_ip: Option<ipv4::Address>,
    src_port: Option<u16>,
    dest_port: Option<u16>,
}

impl View for IPV4DatagramBuilder {
    type V = BuilderConfig;

    closed spec fn view(&self) -> BuilderConfig {
        BuilderConfig {
            mtu: self.mtu,
            identification: self.identification,
            do_not_fragment: self.do_not_fragment,
            time_to_live: self.time_to_live,
            src_ip: self.src_ip,
            dest_ip: self.dest_ip,
            src_port: self.src_port,
            dest_port: self.dest_port,
        }
    }
}

impl IPV4DatagramBuilder {

    pub fn new(mtu: usize) -> (r: Self)
        ensures
            r@ == (BuilderConfig {
                mtu,
                identification: None,
                do_not_fragment: true,
                time_to_live: None,
                src_ip: None,
                dest_ip: None,
                src_port: None,
                dest_port: None,
            }),
    {
        Self {
            mtu,
            identification: None,
            do_not_fragment: true,
            time_to_live: None,
            src_ip: None,
            dest_ip: None,
            src_port: None,
            dest_port: None,
        }
    }

    pub fn set_identification(&mut self, identification: u16)
        ensures
            final(self)@ == (BuilderConfig {
                identification: Some(identification),
                ..old(self)@
            }),
    {
        self.identification = Some(identification);
    }

    /// Allow the payload to be cut into fragments: clear do-not-fragment.
    pub fn enable_fragment(&mut self)
        ensures
            final(self)@ == (BuilderConfig { do_not_fragment: false, ..old(self)@ }),
    {
        self.do_not_fragment = false;
    }

    pub fn set_time_to_live(&mut self, time_to_live: u8)
        ensures
            final(self)@ == (BuilderConfig { time_to_live: Some(time_to_live), ..old(self)@ }),
    {
        self.time_to_live = Some(time_to_live);
    }

    pub fn set_src_ip(&mut self, ip: ipv4::Address)
        ensures
            final(self)@ == (BuilderConfig { src_ip: Some(ip), ..old(self)@ }),
    {
        self.src_ip = Some(ip);
    }

    pub fn set_dest_ip(&mut self, ip: ipv4::Address)
        ensures
            final(self)@ == (BuilderConfig { dest_ip: Some(ip), ..old(self)@ }),
    {
        self.dest_ip = Some(ip);
    }

    pub fn set_src_port(&mut self, port: u16)
        ensures
            final(self)@ == (BuilderConfig { src_port: Some(port), ..old(self)@ }),
    {
        self.src_port = Some(port);
    }

    pub fn set_dest_port(&mut self, port: u16)
        ensures
            final(self)@ == (BuilderConfig { dest_port: Some(port), ..old(self)@ }),
    {
        self.dest_port = Some(port);
    }

    pub fn set_src(&mut self, ip: ipv4::Address, port: u16)
        ensures
            final(self)@ == (BuilderConfig {
                src_ip: Some(ip),
                src_port: Some(port),
                ..old(self)@
            }),
    {
        self.src_ip = Some(ip);
        self.src_port = Some(port);
    }

    pub fn set_dest(&mut self, ip: ipv4::Address, port: u16)
        ensures
            final(self)@ == (BuilderConfig {
                dest_ip: Some(ip),
                dest_port: Some(port),
                ..old(self)@
            }),
    {
        self.dest_ip = Some(ip);
        self.dest_port = Some(port);
    }

    /// The header of one fragment: the payload past `offset`, cut to the
    /// transmission unit.
    pub fn create_ip_header(&self, protocol: u8, offset: usize, payload_size: usize) -> (r:
        ipv4::Header)
        requires
            self@.ip_complete(),
            spec_mtu_ok(self@.mtu as int),
            payload_size + ipv4::HEADER_LEN <= 0xffff,
            offset % 8 == 0,
            offset <= 0xffff,
        ensures
            r.wf(),
            ({
                let max_payload = (self@.mtu - ipv4::HEADER_LEN) / 8 * 8;
                let total_length = if max_payload < payload_size {
                    max_payload + ipv4::HEADER_LEN
                } else {
                    payload_size + ipv4::HEADER_LEN
                };
                r@ == ipv4::spec_ipv4_header(
                    0,
                    total_length,
                    self@.identification->Some_0,
                    ipv4::spec_fragment_word(
                        self@.do_not_fragment,
                        max_payload < payload_size,
                        offset as u16,
                    ),
                    self@.time_to_live->Some_0,
                    protocol,
                    self@.src_ip->Some_0,
                    self@.dest_ip->Some_0,
                )
            }),
    {
        proof {
            assert(offset % 8 == 0 && offset <= 0xffff ==> (offset as u16) % 8 == 0);
        }
        ipv4::Header::new(
            0,
            self.mtu,
            payload_size,
            self.identification.unwrap(),
            self.do_not_fragment,
            offset as u16,
            self.time_to_live.unwrap(),
            protocol,
            self.src_ip.unwrap(),
            self.dest_ip.unwrap(),
        )
    }

    /// The UDP header for the whole payload.
    pub fn create_udp_header(&self, payload_length: usize) -> (r: udp::Header)
        requires
            self@.udp_complete(),
            payload_length + udp::HEADER_LEN <= 0xffff,
        ensures
            r.wf(),
            r@ == udp::spec_udp_header(
                self@.src_port->Some_0,
                self@.dest_port->Some_0,
                payload_length as int,
            ),
    {
        udp::Header::new(self.src_port.unwrap(), self.dest_port.unwrap(), payload_length)
    }

    /// Prepend the UDP header to `data` and hand the whole payload to the
    /// fragment iterator.
    pub fn finalize_udp_with_data(&self, data: &[u8]) -> (r: IPV4FragmentIter)
        requires
            self@.ip_complete(),
            self@.udp_complete(),
            spec_mtu_ok(self@.mtu as int),
            data@.len() + udp::HEADER_LEN + ipv4::HEADER_LEN <= 0xffff,
        ensures
            r.wf(),
            r.remaining() == udp::spec_udp_header(
                self@.src_port->Some_0,
                self@.dest_port->Some_0,
                data@.len() as int,
            ) + data@,
    {
        let udp_header = self.create_udp_header(data.len());
        let mut payload: Vec<u8> = Vec::new();
        let header_slice = udp_header.get_slice();
        let mut i: usize = 0;
        while i < header_slice.len()
            invariant
                i <= header_slice@.len(),
                payload@.len() == i,
                forall|j: int| 0 <= j < i ==> payload@[j] == header_slice@[j],
            decreases header_slice@.len() - i,
        {
            payload.push(header_slice[i]);
            i = i + 1;
        }
        let mut k: usize = 0;
        while k < data.len()
            invariant
                k <= data@.len(),
                payload@.len() == header_slice@.len() + k,
                forall|j: int| 0 <= j < header_slice@.len() ==> payload@[j] == header_slice@[j],
                forall|j: int|
                    0 <= j < k ==> #[trigger] payload@[header_slice@.len() + j] == data@[j],
            decreases data@.len() - k,
        {
            payload.push(data[k]);
            k = k + 1;
        }
        let r = IPV4FragmentIter::new(*self, udp::PROTOCOL, payload);
        proof {
            assert forall|i: int|
                header_slice@.len() <= i < payload@.len() implies payload@[i] == data@[i
                - header_slice@.len()] by {
                assert(payload@[header_slice@.len() + (i - header_slice@.len())] == data@[i
                    - header_slice@.len()]);
            }
            assert(r.remaining() =~= udp_header@ + data@);
        }
        r
    }
}

/// Cuts a payload into wire-ready datagrams, one transmission unit at a
/// time, each under its own IPv4 header.
pub struct IPV4FragmentIter {
    builder: IPV4DatagramBuilder,
    protocol: u8,
    data: Vec<u8>,
    offset: usize,
}

impl IPV4FragmentIter {
    pub closed spec fn wf(self) -> bool {
        &&& self.builder@.ip_complete()
        &&& spec_mtu_ok(self.builder@.mtu as int)
        &&& self.offset <= self.data@.len()
        &&& self.data@.len() <= 0xffff - ipv4::HEADER_LEN
        &&& (self.offset % 8 == 0 || self.offset == self.data@.len())
    }

    /// The payload bytes not yet emitted.
    pub closed spec fn remaining(self) -> Seq<u8> {
        self.data@.skip(self.offset as int)
    }

    pub fn new(builder: IPV4DatagramBuilder, protocol: u8, data: Vec<u8>) -> (r: Self)
        requires
            builder@.ip_complete(),
            spec_mtu_ok(builder@.mtu as int),
            data@.len() + ipv4::HEADER_LEN <= 0xffff,
        ensures
            r.wf(),
            r.remaining() == data@,
    {
        let r = Self { builder, protocol, data, offset: 0 };
        proof {
            assert(r.remaining() =~= r.data@);
        }
        r
    }

    /// The next fragment: an IPv4 header over the next payload piece, cut
    /// to the transmission unit; nothing once the payload is spent.
    pub fn next(&mut self) -> (r: Option<IPV4Datagram>)
        requires
            old(self).wf(),
        ensures
            final(self).wf(),
            old(self).remaining().len() == 0 ==> r is None && final(self).remaining() == old(
                self,
            ).remaining(),
            old(self).remaining().len() > 0 ==> (r matches Some(d) && {
                let max_payload = (old(self).builder_spec().mtu as int - ipv4::HEADER_LEN) / 8
                    * 8;
                let step = if max_payload < old(self).remaining().len() {
                    max_payload
                } else {
                    old(self).remaining().len() as int
                };
                &&& final(self).remaining() == old(self).remaining().skip(step)
                &&& d.0@.len() == ipv4::HEADER_LEN + step
                &&& d.0@.skip(ipv4::HEADER_LEN as int) == old(self).remaining().take(step)
            }),
    {
        if self.offset < self.data.len() {
            let data_total = self.data.len();
            let remaining = data_total - self.offset;
            let ip_header = self.builder.create_ip_header(self.protocol, self.offset, remaining);
            let header_len = ipv4::HEADER_LEN;
            let max_payload = (self.builder.mtu() - header_len) / 8 * 8;
            let data_len = if max_payload < remaining {
                max_payload
            } else {
                remaining
            };
            let mut datagram: Vec<u8> = Vec::new();
            let header_slice = ip_header.get_slice();
            let mut i: usize = 0;
            while i < header_slice.len()
                invariant
                    i <= header_slice@.len(),
                    datagram@.len() == i,
                    forall|j: int| 0 <= j < i ==> datagram@[j] == header_slice@[j],
                decreases header_slice@.len() - i,
            {
                datagram.push(header_slice[i]);
                i = i + 1;
            }
            let mut k: usize = 0;
            while k < data_len
                invariant
                    k <= data_len,
                    self.data@.len() <= usize::MAX,
                    self.offset + data_len <= self.data@.len(),
                    datagram@.len() == header_slice@.len() + k,
                    forall|j: int|
                        0 <= j < header_slice@.len() ==> datagram@[j] == header_slice@[j],
                    forall|j: int|
                        0 <= j < k ==> #[trigger] datagram@[header_slice@.len() + j]
                            == self.data@[self.offset + j],
                decreases data_len - k,
            {
                datagram.push(self.data[self.offset + k]);
                k = k + 1;
            }
            let ghost old_remaining = self.remaining();
            let ghost step = data_len as int;
            let ghost off = self.offset as int;
            self.offset = self.offset + data_len;
            proof {
                assert(header_slice@.len() == ipv4::HEADER_LEN);
                assert forall|j: int| 0 <= j < step implies datagram@[ipv4::HEADER_LEN + j]
                    == old_remaining[j] by {
                    assert(datagram@[header_slice@.len() + j] == self.data@[off + j]);
                }
                assert(self.remaining() =~= old_remaining.skip(step));
                assert(datagram@.skip(ipv4::HEADER_LEN as int) =~= old_remaining.take(step));
                if data_len < remaining {
                    let mtu = self.builder@.mtu as int;
                    assert(data_len == (mtu - ipv4::HEADER_LEN) / 8 * 8);
                    assert(((mtu - 20) / 8 * 8) % 8 == 0) by (nonlinear_arith);
                    assert((off + data_len) % 8 == 0) by (nonlinear_arith)
                        requires
                            off % 8 == 0,
                            data_len % 8 == 0,
                    ;
                }
            }
            Some(IPV4Datagram(datagram))
        } else {
            None
        }
    }

    /// The builder settings this iterator cuts with.
    pub closed spec fn builder_spec(self) -> BuilderConfig {
        self.builder@
    }
}

impl IPV4DatagramBuilder {
    /// The transmission unit this builder sizes fragments to.
    pub fn mtu(&self) -> (r: usize)
        ensures
            r == self@.mtu,
    {
        self.mtu
    }
}

} // verus!
