//! Devices, their last known status, and the ordered device directory.
use crate::conditional_expression::{
    error_code, evaluate_spec, is_expression, reads_as, ConditionError, ConditionalExpression,
    StatusValue,
};
use crate::text::{str_eq, to_string};
use vstd::prelude::*;
use vstd::string::*;

verus! {

/// A device of the service.
#[derive(Debug, Default)]
pub struct Device {
    device_id: String,
    device_name: String,
    device_type: String,
    remote_type: String,
    hub_device_id: String,
    status: Vec<(String, StatusValue)>,
}

/// The first position in `status` whose key is `key`, if any.
pub open spec fn status_position(status: Seq<(String, StatusValue)>, key: Seq<char>) -> Option<int> {
    if exists|i: int| 0 <= i < status.len() && (#[trigger] status[i]).0@ == key {
        Some(
            choose|i: int|
                0 <= i < status.len() && (#[trigger] status[i]).0@ == key && forall|j: int|
                    0 <= j < i ==> (#[trigger] status[j]).0@ != key,
        )
    } else {
        None
    }
}

/// The value of `key` in `status`: that of its first entry.
pub open spec fn status_lookup(status: Seq<(String, StatusValue)>, key: Seq<char>) -> Option<StatusValue> {
    match status_position(status, key) {
        Some(i) => Some(status[i].1),
        None => None,
    }
}

impl Device {
    pub closed spec fn id(&self) -> Seq<char> {
        self.device_id@
    }

    pub closed spec fn name(&self) -> Seq<char> {
        self.device_name@
    }

    pub closed spec fn kind(&self) -> Seq<char> {
        self.device_type@
    }

    pub closed spec fn remote_kind(&self) -> Seq<char> {
        self.remote_type@
    }

    pub closed spec fn hub(&self) -> Seq<char> {
        self.hub_device_id@
    }

    /// The last known status, as `(key, value)` entries.
    pub closed spec fn status_entries(&self) -> Seq<(String, StatusValue)> {
        self.status@
    }

    /// A device with no known status.
    pub fn new(
        device_id: String,
        device_name: String,
        device_type: String,
        remote_type: String,
        hub_device_id: String,
    ) -> (r: Device)
        ensures
            r.id() == device_id@,
            r.name() == device_name@,
            r.kind() == device_type@,
            r.remote_kind() == remote_type@,
            r.hub() == hub_device_id@,
            r.status_entries().len() == 0,
    {
        Device { device_id, device_name, device_type, remote_type, hub_device_id, status: Vec::new() }
    }

    /// The device ID.
    pub fn device_id(&self) -> (r: &str)
        ensures
            r@ == self.id(),
    {
        self.device_id.as_str()
    }

    /// The name given to the device.
    pub fn device_name(&self) -> (r: &str)
        ensures
            r@ == self.name(),
    {
        self.device_name.as_str()
    }

    /// Whether this is an infrared remote device.
    pub fn is_remote(&self) -> (r: bool)
        ensures
            r == (self.remote_kind().len() > 0),
    {
        self.remote_type.as_str().unicode_len() > 0
    }

    /// The device type; empty for an infrared remote device.
    pub fn device_type(&self) -> (r: &str)
        ensures
            r@ == self.kind(),
    {
        self.device_type.as_str()
    }

    /// The type of an infrared remote device.
    pub fn remote_type(&self) -> (r: &str)
        ensures
            r@ == self.remote_kind(),
    {
        self.remote_type.as_str()
    }

    /// The remote type for a remote device, else the device type.
    pub fn device_type_or_remote_type(&self) -> (r: &str)
        ensures
            r@ == if self.remote_kind().len() > 0 {
                self.remote_kind()
            } else {
                self.kind()
            },
    {
        if self.is_remote() {
            self.remote_type()
        } else {
            self.device_type()
        }
    }

    /// One line about the device: `name (type, ID:id)`, with the remote type
    /// for a remote device.
    pub fn summary(&self) -> (r: String)
        ensures
            r@ == self.name() + " ("@ + (if self.remote_kind().len() > 0 {
                self.remote_kind()
            } else {
                self.kind()
            }) + ", ID:"@ + self.id() + ")"@,
    {
        let mut r = to_string(self.device_name());
        r.append(" (");
        r.append(self.device_type_or_remote_type());
        r.append(", ID:");
        r.append(self.device_id());
        r.append(")");
        r
    }

    /// The ID of the hub the device is attached to.
    pub fn hub_device_id(&self) -> (r: &str)
        ensures
            r@ == self.hub(),
    {
        self.hub_device_id.as_str()
    }

    /// Replaces the known status with `status`.
    pub fn set_status(&mut self, status: Vec<(String, StatusValue)>)
        ensures
            final(self).status_entries() == status@,
            final(self).id() == old(self).id(),
            final(self).name() == old(self).name(),
            final(self).kind() == old(self).kind(),
            final(self).remote_kind() == old(self).remote_kind(),
            final(self).hub() == old(self).hub(),
    {
        self.status = status;
    }

    /// The known status, as `(key, value)` entries.
    pub fn status(&self) -> (r: &Vec<(String, StatusValue)>)
        ensures
            r@ == self.status_entries(),
    {
        &self.status
    }

    /// The value of the status `key`, if the status has it.
    pub fn status_by_key(&self, key: &str) -> (r: Option<&StatusValue>)
        ensures
            match r {
                Some(v) => status_lookup(self.status_entries(), key@) == Some(*v),
                None => status_lookup(self.status_entries(), key@) is None,
            },
    {
        let mut i: usize = 0;
        while i < self.status.len()
            invariant
                i <= self.status@.len(),
                forall|j: int| 0 <= j < i ==> (#[trigger] self.status@[j]).0@ != key@,
            decreases self.status@.len() - i,
        {
            if str_eq(self.status[i].0.as_str(), key) {
                proof {
                    let p = choose|p: int|
                        0 <= p < self.status@.len() && (#[trigger] self.status@[p]).0@ == key@
                            && forall|j: int| 0 <= j < p ==> (#[trigger] self.status@[j]).0@ != key@;
                    assert(p == i as int);
                }
                return Some(&self.status[i].1);
            }
            i = i + 1;
        }
        None
    }

    /// Evaluates `condition` against the known status.
    pub fn eval_condition(&self, condition: &str) -> (r: Result<bool, ConditionError>)
        ensures
            match r {
                Ok(b) => exists|e: ConditionalExpression|
                    reads_as(condition@, e.key@, e.operator, e.value@) && status_lookup(
                        self.status_entries(),
                        e.key@,
                    ) is Some && evaluate_spec(
                        e.operator,
                        e.value@,
                        status_lookup(self.status_entries(), e.key@)->0,
                    ) == Ok::<bool, int>(b),
                Err(ConditionError::Invalid(_)) => !is_expression(condition@),
                Err(ConditionError::NoStatusKey(k)) => exists|e: ConditionalExpression|
                    reads_as(condition@, e.key@, e.operator, e.value@) && k@ == e.key@
                        && status_lookup(self.status_entries(), e.key@) is None,
                Err(err) => exists|e: ConditionalExpression|
                    reads_as(condition@, e.key@, e.operator, e.value@) && status_lookup(
                        self.status_entries(),
                        e.key@,
                    ) is Some && evaluate_spec(
                        e.operator,
                        e.value@,
                        status_lookup(self.status_entries(), e.key@)->0,
                    ) == Err::<bool, int>(error_code(err)),
            },
    {
        let expr = match ConditionalExpression::parse(condition) {
            Ok(e) => e,
            Err(e) => return Err(e),
        };
        match self.status_by_key(expr.key.as_str()) {
            Some(v) => expr.evaluate(v),
            None => Err(ConditionError::NoStatusKey(to_string(expr.key.as_str()))),
        }
    }
}

/// The devices of the service, in order.
#[derive(Debug, Default)]
pub struct DeviceList {
    devices: Vec<Device>,
}

impl View for DeviceList {
    type V = Seq<Device>;

    closed spec fn view(&self) -> Seq<Device> {
        self.devices@
    }
}

/// The position of the first device whose ID is `id`, if any.
pub open spec fn index_of_id(devices: Seq<Device>, id: Seq<char>) -> Option<int> {
    if exists|i: int| 0 <= i < devices.len() && (#[trigger] devices[i]).id() == id {
        Some(
            choose|i: int|
                0 <= i < devices.len() && (#[trigger] devices[i]).id() == id && forall|j: int|
                    0 <= j < i ==> (#[trigger] devices[j]).id() != id,
        )
    } else {
        None
    }
}

/// Where some device has the ID `id`, a first one has.
pub proof fn lemma_first_id(devices: Seq<Device>, id: Seq<char>, i: int)
    requires
        0 <= i < devices.len(),
        devices[i].id() == id,
    ensures
        exists|j: int|
            0 <= j < devices.len() && (#[trigger] devices[j]).id() == id && forall|m: int|
                0 <= m < j ==> (#[trigger] devices[m]).id() != id,
    decreases i,
{
    if exists|m: int| 0 <= m < i && (#[trigger] devices[m]).id() == id {
        let m = choose|m: int| 0 <= m < i && (#[trigger] devices[m]).id() == id;
        lemma_first_id(devices, id, m);
    } else {
        assert(forall|m: int| 0 <= m < i ==> (#[trigger] devices[m]).id() != id);
    }
}

/// The position that `index_of_id` gives is that of a device with the ID.
pub proof fn lemma_index_of_id(devices: Seq<Device>, id: Seq<char>)
    ensures
        index_of_id(devices, id) matches Some(k) ==> 0 <= k < devices.len() && devices[k].id() == id,
{
    if exists|i: int| 0 <= i < devices.len() && (#[trigger] devices[i]).id() == id {
        let i = choose|i: int| 0 <= i < devices.len() && (#[trigger] devices[i]).id() == id;
        lemma_first_id(devices, id, i);
    }
}

impl DeviceList {
    pub fn new() -> (r: DeviceList)
        ensures
            r@.len() == 0,
    {
        DeviceList { devices: Vec::new() }
    }

    pub fn with_capacity(capacity: usize) -> (r: DeviceList)
        ensures
            r@.len() == 0,
    {
        DeviceList { devices: Vec::with_capacity(capacity) }
    }

    pub fn push(&mut self, device: Device)
        ensures
            final(self)@ == old(self)@.push(device),
    {
        self.devices.push(device);
    }

    /// Appends every device of `devices`, in order.
    pub fn extend(&mut self, devices: Vec<Device>)
        ensures
            final(self)@ == old(self)@ + devices@,
    {
        let mut devices = devices;
        let mut rest = Vec::new();
        let ghost all = devices@;
        while devices.len() > 0
            invariant
                rest@ + devices@ == all,
            decreases devices@.len(),
        {
            let d = devices.remove(0);
            rest.push(d);
            assert(rest@ + devices@ =~= all);
        }
        assert(rest@ =~= all);
        self.devices.append(&mut rest);
    }

    /// The position of the first device whose ID is `device_id`.
    pub fn index_by_device_id(&self, device_id: &str) -> (r: Option<usize>)
        ensures
            match r {
                Some(i) => index_of_id(self@, device_id@) == Some(i as int),
                None => index_of_id(self@, device_id@) is None,
            },
    {
        let mut i: usize = 0;
        while i < self.devices.len()
            invariant
                i <= self.devices@.len(),
                forall|j: int| 0 <= j < i ==> (#[trigger] self.devices@[j]).id() != device_id@,
            decreases self.devices@.len() - i,
        {
            if str_eq(self.devices[i].device_id(), device_id) {
                proof {
                    let p = choose|p: int|
                        0 <= p < self.devices@.len() && (#[trigger] self.devices@[p]).id() == device_id@
                            && forall|j: int| 0 <= j < p ==> (#[trigger] self.devices@[j]).id() != device_id@;
                    assert(p == i as int);
                }
                return Some(i);
            }
            i = i + 1;
        }
        None
    }

    pub fn get(&self, index: usize) -> (r: Option<&Device>)
        ensures
            match r {
                Some(d) => index < self@.len() && *d == self@[index as int],
                None => index >= self@.len(),
            },
    {
        if index < self.devices.len() {
            Some(&self.devices[index])
        } else {
            None
        }
    }

    /// Replaces the known status of the device at `index`.
    pub fn set_status(&mut self, index: usize, status: Vec<(String, StatusValue)>)
        requires
            index < old(self)@.len(),
        ensures
            final(self)@.len() == old(self)@.len(),
            final(self)@[index as int].status_entries() == status@,
            final(self)@[index as int].id() == old(self)@[index as int].id(),
            forall|j: int| 0 <= j < old(self)@.len() && j != index ==> final(self)@[j] == old(self)@[j],
    {
        let mut d = self.devices.remove(index);
        d.set_status(status);
        self.devices.insert(index, d);
    }

    pub fn is_empty(&self) -> (r: bool)
        ensures
            r == (self@.len() == 0),
    {
        self.devices.len() == 0
    }

    pub fn len(&self) -> (r: usize)
        ensures
            r == self@.len(),
    {
        self.devices.len()
    }
}

} // verus!
