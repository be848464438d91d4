use vstd::prelude::*;

verus! {

/// The bytes of `host`.
pub open spec fn host() -> Seq<u8> {
    seq![104u8, 111u8, 115u8, 116u8]
}

pub fn host_bytes() -> (r: Vec<u8>)
    ensures
        r@ == host(),
{
    vec![104u8, 111u8, 115u8, 116u8]
}

/// The bytes of `accept-encoding`.
pub open spec fn accept_encoding() -> Seq<u8> {
    seq![97u8, 99u8, 99u8, 101u8, 112u8, 116u8, 45u8, 101u8, 110u8, 99u8, 111u8, 100u8, 105u8, 110u8, 103u8]
}

pub fn accept_encoding_bytes() -> (r: Vec<u8>)
    ensures
        r@ == accept_encoding(),
{
    vec![97u8, 99u8, 99u8, 101u8, 112u8, 116u8, 45u8, 101u8, 110u8, 99u8, 111u8, 100u8, 105u8, 110u8, 103u8]
}

/// The bytes of `strict-transport-security`.
pub open spec fn hsts() -> Seq<u8> {
    seq![115u8, 116u8, 114u8, 105u8, 99u8, 116u8, 45u8, 116u8, 114u8, 97u8, 110u8, 115u8, 112u8, 111u8, 114u8, 116u8, 45u8, 115u8, 101u8, 99u8, 117u8, 114u8, 105u8, 116u8, 121u8]
}

pub fn hsts_bytes() -> (r: Vec<u8>)
    ensures
        r@ == hsts(),
{
    vec![115u8, 116u8, 114u8, 105u8, 99u8, 116u8, 45u8, 116u8, 114u8, 97u8, 110u8, 115u8, 112u8, 111u8, 114u8, 116u8, 45u8, 115u8, 101u8, 99u8, 117u8, 114u8, 105u8, 116u8, 121u8]
}

/// The bytes of `access-control-allow-origin`.
pub open spec fn allow_origin() -> Seq<u8> {
    seq![97u8, 99u8, 99u8, 101u8, 115u8, 115u8, 45u8, 99u8, 111u8, 110u8, 116u8, 114u8, 111u8, 108u8, 45u8, 97u8, 108u8, 108u8, 111u8, 119u8, 45u8, 111u8, 114u8, 105u8, 103u8, 105u8, 110u8]
}

pub fn allow_origin_bytes() -> (r: Vec<u8>)
    ensures
        r@ == allow_origin(),
{
    vec![97u8, 99u8, 99u8, 101u8, 115u8, 115u8, 45u8, 99u8, 111u8, 110u8, 116u8, 114u8, 111u8, 108u8, 45u8, 97u8, 108u8, 108u8, 111u8, 119u8, 45u8, 111u8, 114u8, 105u8, 103u8, 105u8, 110u8]
}

/// The bytes of `access-control-allow-methods`.
pub open spec fn allow_methods() -> Seq<u8> {
    seq![97u8, 99u8, 99u8, 101u8, 115u8, 115u8, 45u8, 99u8, 111u8, 110u8, 116u8, 114u8, 111u8, 108u8, 45u8, 97u8, 108u8, 108u8, 111u8, 119u8, 45u8, 109u8, 101u8, 116u8, 104u8, 111u8, 100u8, 115u8]
}

pub fn allow_methods_bytes() -> (r: Vec<u8>)
    ensures
        r@ == allow_methods(),
{
    vec![97u8, 99u8, 99u8, 101u8, 115u8, 115u8, 45u8, 99u8, 111u8, 110u8, 116u8, 114u8, 111u8, 108u8, 45u8, 97u8, 108u8, 108u8, 111u8, 119u8, 45u8, 109u8, 101u8, 116u8, 104u8, 111u8, 100u8, 115u8]
}

/// The bytes of `*`.
pub open spec fn star() -> Seq<u8> {
    seq![42u8]
}

pub fn star_bytes() -> (r: Vec<u8>)
    ensures
        r@ == star(),
{
    vec![42u8]
}

/// The bytes of `location`.
pub open spec fn location() -> Seq<u8> {
    seq![108u8, 111u8, 99u8, 97u8, 116u8, 105u8, 111u8, 110u8]
}

pub fn location_bytes() -> (r: Vec<u8>)
    ensures
        r@ == location(),
{
    vec![108u8, 111u8, 99u8, 97u8, 116u8, 105u8, 111u8, 110u8]
}

/// The bytes of `content-type`.
pub open spec fn content_type() -> Seq<u8> {
    seq![99u8, 111u8, 110u8, 116u8, 101u8, 110u8, 116u8, 45u8, 116u8, 121u8, 112u8, 101u8]
}

pub fn content_type_bytes() -> (r: Vec<u8>)
    ensures
        r@ == content_type(),
{
    vec![99u8, 111u8, 110u8, 116u8, 101u8, 110u8, 116u8, 45u8, 116u8, 121u8, 112u8, 101u8]
}

/// The bytes of `content-disposition`.
pub open spec fn content_disposition() -> Seq<u8> {
    seq![99u8, 111u8, 110u8, 116u8, 101u8, 110u8, 116u8, 45u8, 100u8, 105u8, 115u8, 112u8, 111u8, 115u8, 105u8, 116u8, 105u8, 111u8, 110u8]
}

pub fn content_disposition_bytes() -> (r: Vec<u8>)
    ensures
        r@ == content_disposition(),
{
    vec![99u8, 111u8, 110u8, 116u8, 101u8, 110u8, 116u8, 45u8, 100u8, 105u8, 115u8, 112u8, 111u8, 115u8, 105u8, 116u8, 105u8, 111u8, 110u8]
}

/// The bytes of `application/octet-stream`.
pub open spec fn octet_stream() -> Seq<u8> {
    seq![97u8, 112u8, 112u8, 108u8, 105u8, 99u8, 97u8, 116u8, 105u8, 111u8, 110u8, 47u8, 111u8, 99u8, 116u8, 101u8, 116u8, 45u8, 115u8, 116u8, 114u8, 101u8, 97u8, 109u8]
}

pub fn octet_stream_bytes() -> (r: Vec<u8>)
    ensures
        r@ == octet_stream(),
{
    vec![97u8, 112u8, 112u8, 108u8, 105u8, 99u8, 97u8, 116u8, 105u8, 111u8, 110u8, 47u8, 111u8, 99u8, 116u8, 101u8, 116u8, 45u8, 115u8, 116u8, 114u8, 101u8, 97u8, 109u8]
}

/// The bytes of `attachment; filename=good-mitm.crt`.
pub open spec fn attachment() -> Seq<u8> {
    seq![97u8, 116u8, 116u8, 97u8, 99u8, 104u8, 109u8, 101u8, 110u8, 116u8, 59u8, 32u8, 102u8, 105u8, 108u8, 101u8, 110u8, 97u8, 109u8, 101u8, 61u8, 103u8, 111u8, 111u8, 100u8, 45u8, 109u8, 105u8, 116u8, 109u8, 46u8, 99u8, 114u8, 116u8]
}

pub fn attachment_bytes() -> (r: Vec<u8>)
    ensures
        r@ == attachment(),
{
    vec![97u8, 116u8, 116u8, 97u8, 99u8, 104u8, 109u8, 101u8, 110u8, 116u8, 59u8, 32u8, 102u8, 105u8, 108u8, 101u8, 110u8, 97u8, 109u8, 101u8, 61u8, 103u8, 111u8, 111u8, 100u8, 45u8, 109u8, 105u8, 116u8, 109u8, 46u8, 99u8, 114u8, 116u8]
}

/// The bytes of `/mitm/cert`.
pub open spec fn cert_path() -> Seq<u8> {
    seq![47u8, 109u8, 105u8, 116u8, 109u8, 47u8, 99u8, 101u8, 114u8, 116u8]
}

pub fn cert_path_bytes() -> (r: Vec<u8>)
    ensures
        r@ == cert_path(),
{
    vec![47u8, 109u8, 105u8, 116u8, 109u8, 47u8, 99u8, 101u8, 114u8, 116u8]
}

/// The bytes of `cert.mitm`.
pub open spec fn cert_host() -> Seq<u8> {
    seq![99u8, 101u8, 114u8, 116u8, 46u8, 109u8, 105u8, 116u8, 109u8]
}

pub fn cert_host_bytes() -> (r: Vec<u8>)
    ensures
        r@ == cert_host(),
{
    vec![99u8, 101u8, 114u8, 116u8, 46u8, 109u8, 105u8, 116u8, 109u8]
}

} // verus!
