//! Bullets: the per-request data extracted from a log record, its owned
//! form for sampling buffers, and the ammo wire format — the decimal byte
//! length of a rendered HTTP request, a tag annotation, and the request.
use vstd::prelude::*;

use crate::bytes::{push_all, split2, split_two, views_of, COMMA, CR, LF, PIPE, SPACE};
use crate::parse::{copy_bytes, LogRecord};
use crate::url::{cgi_value, url_host, url_resource};

verus! {

/// The mathematical content of one bullet.
pub struct BulletModel {
    pub resource: Seq<u8>,
    pub host: Seq<u8>,
    pub place: Seq<u8>,
    pub wizards: Seq<u8>,
}

/// The per-request data extracted from one log record.
pub struct BulletData {
    pub resource: Vec<u8>,
    pub host: Vec<u8>,
    pub place: Vec<u8>,
    pub wizards: Vec<u8>,
}

impl View for BulletData {
    type V = BulletModel;

    open spec fn view(&self) -> BulletModel {
        BulletModel {
            resource: self.resource@,
            host: self.host@,
            place: self.place@,
            wizards: self.wizards@,
        }
    }
}

/// An owned copy of a bullet, used where a bullet outlives the line that
/// produced it.
pub struct StoredBullet {
    pub resource: Vec<u8>,
    pub host: Vec<u8>,
    pub place: Vec<u8>,
    pub wizards: Vec<u8>,
}

impl View for StoredBullet {
    type V = BulletModel;

    open spec fn view(&self) -> BulletModel {
        BulletModel {
            resource: self.resource@,
            host: self.host@,
            place: self.place@,
            wizards: self.wizards@,
        }
    }
}

impl DeepView for StoredBullet {
    type V = BulletModel;

    open spec fn deep_view(&self) -> BulletModel {
        self.view()
    }
}

impl StoredBullet {
    /// Copies a bullet into its owned form.
    pub fn from_data(data: &BulletData) -> (r: StoredBullet)
        ensures
            r@ == data@,
    {
        StoredBullet {
            resource: copy_bytes(&data.resource),
            host: copy_bytes(&data.host),
            place: copy_bytes(&data.place),
            wizards: copy_bytes(&data.wizards),
        }
    }

    /// Hands the owned bullet back out as bullet data.
    pub fn get_data(&self) -> (r: BulletData)
        ensures
            r@ == self@,
    {
        BulletData {
            resource: copy_bytes(&self.resource),
            host: copy_bytes(&self.host),
            place: copy_bytes(&self.place),
            wizards: copy_bytes(&self.wizards),
        }
    }
}

/// The bytes of the query parameter name `place`.
pub open spec fn place_key() -> Seq<u8> {
    seq![112u8, 108u8, 97u8, 99u8, 101u8]
}

fn place_key_vec() -> (r: Vec<u8>)
    ensures
        r@ == place_key(),
{
    let mut v: Vec<u8> = Vec::new();
    v.push(112);
    v.push(108);
    v.push(97);
    v.push(99);
    v.push(101);
    assert(v@ =~= place_key());
    v
}

/// The bullet a record's URL and tags stand for: the resource and host
/// from the URL, the `place` query parameter of the resource, and the
/// tags taken verbatim.
pub open spec fn bullet_of(url: Seq<u8>, wizards: Seq<u8>) -> BulletModel {
    BulletModel {
        resource: url_resource(url),
        host: url_host(url),
        place: match cgi_value(url_resource(url), place_key()) {
            Some(v) => v,
            None => Seq::<u8>::empty(),
        },
        wizards: wizards,
    }
}

/// Derives the bullet of one parsed log record.
pub fn make_bullet_data_from_log_record(rec: LogRecord) -> (r: BulletData)
    ensures
        r@ == bullet_of(rec.url@, rec.wizards@),
{
    let (host, _port, resource) = crate::url::get_host_port_resource_from_url(
        rec.url.as_slice(),
    );
    let key = place_key_vec();
    let place = match crate::url::get_cgi_param_value_naive(resource.as_slice(), key.as_slice()) {
        Some(v) => v,
        None => Vec::new(),
    };
    BulletData { resource, host, place, wizards: rec.wizards }
}

/// The decimal digits of `n`, most significant first.
pub open spec fn dec_rep(n: nat) -> Seq<u8>
    decreases n,
{
    if n < 10 {
        seq![(48 + n) as u8]
    } else {
        dec_rep(n / 10).push((48 + n % 10) as u8)
    }
}

/// Writes `n` in decimal.
pub fn usize_to_decimal(n: usize) -> (r: Vec<u8>)
    ensures
        r@ == dec_rep(n as nat),
    decreases n,
{
    if n < 10 {
        let mut v: Vec<u8> = Vec::new();
        v.push(48 + n as u8);
        assert(v@ =~= dec_rep(n as nat));
        v
    } else {
        let mut v = usize_to_decimal(n / 10);
        v.push(48 + (n % 10) as u8);
        v
    }
}

/// The bytes of the literal `GET /`.
pub open spec fn get_prefix() -> Seq<u8> {
    seq![71u8, 69u8, 84u8, 32u8, 47u8]
}

fn get_prefix_vec() -> (r: Vec<u8>)
    ensures
        r@ == get_prefix(),
{
    let mut v: Vec<u8> = Vec::new();
    v.push(71);
    v.push(69);
    v.push(84);
    v.push(32);
    v.push(47);
    assert(v@ =~= get_prefix());
    v
}

/// The fixed bytes after the resource: the protocol line and the
/// User-Agent and Connection headers, ending in an empty line.
pub open spec fn request_tail() -> Seq<u8> {
    seq![
        32u8, 72u8, 84u8, 84u8, 80u8, 47u8, 49u8, 46u8, 48u8, 13u8, 10u8, 85u8, 115u8, 101u8,
        114u8, 45u8, 65u8, 103u8, 101u8, 110u8, 116u8, 58u8, 32u8, 116u8, 97u8, 110u8, 107u8,
        13u8, 10u8, 67u8, 111u8, 110u8, 110u8, 101u8, 99u8, 116u8, 105u8, 111u8, 110u8, 58u8,
        32u8, 99u8, 108u8, 111u8, 115u8, 101u8, 13u8, 10u8, 13u8, 10u8,
    ]
}

fn request_tail_vec() -> (r: Vec<u8>)
    ensures
        r@ == request_tail(),
{
    let mut v: Vec<u8> = Vec::new();
    v.push(32);
    v.push(72);
    v.push(84);
    v.push(84);
    v.push(80);
    v.push(47);
    v.push(49);
    v.push(46);
    v.push(48);
    v.push(13);
    v.push(10);
    v.push(85);
    v.push(115);
    v.push(101);
    v.push(114);
    v.push(45);
    v.push(65);
    v.push(103);
    v.push(101);
    v.push(110);
    v.push(116);
    v.push(58);
    v.push(32);
    v.push(116);
    v.push(97);
    v.push(110);
    v.push(107);
    v.push(13);
    v.push(10);
    v.push(67);
    v.push(111);
    v.push(110);
    v.push(110);
    v.push(101);
    v.push(99);
    v.push(116);
    v.push(105);
    v.push(111);
    v.push(110);
    v.push(58);
    v.push(32);
    v.push(99);
    v.push(108);
    v.push(111);
    v.push(115);
    v.push(101);
    v.push(13);
    v.push(10);
    v.push(13);
    v.push(10);
    assert(v@ =~= request_tail());
    v
}

/// The HTTP/1.0 GET request rendered for a resource.
pub open spec fn http_request_of(resource: Seq<u8>) -> Seq<u8> {
    get_prefix().add(resource).add(request_tail())
}

/// The annotation the comma-separated tag entries contribute: a `|` and
/// the entry, for every non-empty entry, in order.
pub open spec fn tags_annotation(parts: Seq<Seq<u8>>) -> Seq<u8>
    decreases parts.len(),
{
    if parts.len() == 0 {
        Seq::<u8>::empty()
    } else {
        tags_annotation(parts.drop_last()).add(
            if parts.last().len() > 0 {
                seq![PIPE].add(parts.last())
            } else {
                Seq::<u8>::empty()
            },
        )
    }
}

/// The tag annotation of a bullet: its place, then its non-empty tags.
pub open spec fn annotation_of(b: BulletModel) -> Seq<u8> {
    b.place.add(tags_annotation(split2(b.wizards, COMMA, COMMA)))
}

/// The full wire record of a bullet: the decimal byte length of the
/// rendered request, a space, the annotation, CRLF, the request, CRLF.
pub open spec fn render_bullet_spec(b: BulletModel) -> Seq<u8> {
    dec_rep(http_request_of(b.resource).len()).add(seq![SPACE]).add(annotation_of(b)).add(
        seq![CR, LF],
    ).add(http_request_of(b.resource)).add(seq![CR, LF])
}

/// Renders one bullet into the ammo wire format.
pub fn render_bullet(bullet: &BulletData) -> (r: Vec<u8>)
    ensures
        r@ == render_bullet_spec(bullet@),
{
    let mut req = get_prefix_vec();
    push_all(&mut req, bullet.resource.as_slice());
    let tail = request_tail_vec();
    push_all(&mut req, tail.as_slice());
    proof {
        assert(req@ == http_request_of(bullet@.resource));
    }
    let mut out = usize_to_decimal(req.len());
    out.push(SPACE);
    push_all(&mut out, bullet.place.as_slice());
    let ghost head = dec_rep(http_request_of(bullet@.resource).len()).add(seq![SPACE]).add(
        bullet@.place,
    );
    proof {
        assert(out@ =~= head);
    }
    let parts = split_two(bullet.wizards.as_slice(), COMMA, COMMA);
    let ghost all = views_of(parts@);
    let n = parts.len();
    let mut i: usize = 0;
    proof {
        assert(all.take(0) =~= Seq::<Seq<u8>>::empty());
        assert(head.add(Seq::<u8>::empty()) =~= head);
    }
    while i < n
        invariant
            n == parts@.len(),
            0 <= i <= n,
            all == views_of(parts@),
            out@ == head.add(tags_annotation(all.take(i as int))),
        decreases n - i,
    {
        let ghost out_before = out@;
        proof {
            assert(all.take(i + 1).drop_last() =~= all.take(i as int));
            assert(all.take(i + 1).last() == all[i as int]);
        }
        let part = &parts[i];
        if part.len() > 0 {
            out.push(PIPE);
            push_all(&mut out, part.as_slice());
            proof {
                assert(out@ =~= out_before.add(seq![PIPE].add(part@)));
                assert(head.add(tags_annotation(all.take(i as int))).add(
                    seq![PIPE].add(part@),
                ) =~= head.add(tags_annotation(all.take(i as int)).add(seq![PIPE].add(part@))));
            }
        } else {
            proof {
                assert(tags_annotation(all.take(i as int)).add(Seq::<u8>::empty()) =~=
                    tags_annotation(all.take(i as int)));
            }
        }
        i += 1;
    }
    proof {
        assert(all.take(n as int) =~= all);
        assert(out@ == head.add(tags_annotation(split2(bullet@.wizards, COMMA, COMMA))));
        assert(head.add(tags_annotation(split2(bullet@.wizards, COMMA, COMMA))) =~= dec_rep(
            http_request_of(bullet@.resource).len(),
        ).add(seq![SPACE]).add(annotation_of(bullet@)));
    }
    let ghost mid = out@;
    out.push(CR);
    out.push(LF);
    push_all(&mut out, req.as_slice());
    out.push(CR);
    out.push(LF);
    proof {
        assert(out@ =~= mid.add(seq![CR, LF]).add(http_request_of(bullet@.resource)).add(
            seq![CR, LF],
        ));
    }
    out
}

} // verus!
