//! Resources: machines, people, rooms and other things that activities use.
use vstd::prelude::*;
use crate::models::calendar::Calendar;
use crate::text::same_text;

verus! {

/// Fixed-point scale of efficiencies and skill levels: 1000 stands for 1.0.
pub const PER_MILLE: i32 = 1000;

/// Kind of resource.
#[derive(Debug, Clone, PartialEq, Eq)]
pub enum ResourceType {
    /// Processing resource: machine, room, vehicle.
    Primary,
    /// Support resource: tool, fixture.
    Secondary,
    /// Worker or operator.
    Human,
    /// Material or energy, used up by work.
    Consumable,
    Custom(String),
}

/// A capability, with its proficiency in thousandths (0 to 1000).
#[derive(Debug, Clone)]
pub struct Skill {
    pub name: String,
    pub level: i32,
}

impl Skill {
    /// A skill whose level is clamped to `0..=1000`.
    pub fn new(name: &str, level: i32) -> (r: Self)
        ensures
            r.name@ == name@,
            r.level == (if level < 0 { 0 } else if level > PER_MILLE { PER_MILLE } else { level }),
    {
        let l = if level < 0 {
            0
        } else if level > PER_MILLE {
            PER_MILLE
        } else {
            level
        };
        Skill { name: name.to_owned(), level: l }
    }
}

/// Something that activities are allocated to.
#[derive(Debug, Clone)]
pub struct Resource {
    pub id: String,
    pub name: String,
    pub resource_type: ResourceType,
    /// Number of activities it can serve at once.
    pub capacity: i32,
    /// Speed factor in thousandths; 1000 is nominal.
    pub efficiency: i32,
    /// No calendar means always available.
    pub calendar: Option<Calendar>,
    pub skills: Vec<Skill>,
    /// Cost of one hour, in thousandths of the currency unit.
    pub cost_per_hour: Option<i64>,
    pub attributes: std::collections::HashMap<String, String>,
}

/// The level of the first skill of the list with the given name, or 0.
pub open spec fn level_of(skills: Seq<Skill>, name: Seq<char>) -> i32
    decreases skills.len(),
{
    if skills.len() == 0 {
        0
    } else if skills[0].name@ == name {
        skills[0].level
    } else {
        level_of(skills.drop_first(), name)
    }
}

impl Resource {
    /// A resource of capacity 1 and nominal efficiency, named after its id.
    pub fn new(id: &str, resource_type: ResourceType) -> (r: Self)
        ensures
            r.id@ == id@,
            r.name@ == id@,
            r.resource_type == resource_type,
            r.capacity == 1,
            r.efficiency == PER_MILLE,
            r.calendar.is_none(),
            r.skills@.len() == 0,
            r.cost_per_hour.is_none(),
    {
        Resource {
            id: id.to_owned(),
            name: id.to_owned(),
            resource_type,
            capacity: 1,
            efficiency: PER_MILLE,
            calendar: None,
            skills: Vec::new(),
            cost_per_hour: None,
            attributes: std::collections::HashMap::new(),
        }
    }

    pub fn primary(id: &str) -> (r: Self)
        ensures
            r.id@ == id@,
            r.resource_type == ResourceType::Primary,
            r.capacity == 1,
            r.calendar.is_none(),
    {
        Resource::new(id, ResourceType::Primary)
    }

    pub fn human(id: &str) -> (r: Self)
        ensures
            r.id@ == id@,
            r.resource_type == ResourceType::Human,
            r.capacity == 1,
            r.calendar.is_none(),
    {
        Resource::new(id, ResourceType::Human)
    }

    pub fn secondary(id: &str) -> (r: Self)
        ensures
            r.id@ == id@,
            r.resource_type == ResourceType::Secondary,
            r.capacity == 1,
            r.calendar.is_none(),
    {
        Resource::new(id, ResourceType::Secondary)
    }

    pub fn with_name(self, name: &str) -> (r: Self)
        ensures
            r.name@ == name@,
            r.id == self.id && r.resource_type == self.resource_type && r.capacity == self.capacity,
            r.efficiency == self.efficiency,
    {
        Resource { name: name.to_owned(), ..self }
    }

    pub fn with_capacity(self, capacity: i32) -> (r: Self)
        ensures
            r == (Resource { capacity, ..self }),
    {
        Resource { capacity, ..self }
    }

    /// Sets the efficiency, in thousandths.
    pub fn with_efficiency(self, efficiency: i32) -> (r: Self)
        ensures
            r == (Resource { efficiency, ..self }),
    {
        Resource { efficiency, ..self }
    }

    pub fn with_calendar(self, calendar: Calendar) -> (r: Self)
        ensures
            r == (Resource { calendar: Some(calendar), ..self }),
    {
        Resource { calendar: Some(calendar), ..self }
    }

    /// Appends a skill, its level in thousandths clamped to `0..=1000`.
    pub fn with_skill(self, name: &str, level: i32) -> (r: Self)
        ensures
            r.skills@.len() == self.skills@.len() + 1,
            r.skills@.drop_last() == self.skills@,
            r.skills@.last().name@ == name@,
            r.skills@.last().level == (if level < 0 { 0 } else if level > PER_MILLE { PER_MILLE } else { level }),
            r.id == self.id && r.resource_type == self.resource_type && r.capacity == self.capacity,
    {
        let mut s = self;
        s.skills.push(Skill::new(name, level));
        proof {
            assert(s.skills@.drop_last() =~= self.skills@);
        }
        s
    }

    /// Sets the hourly cost, in thousandths of the currency unit.
    pub fn with_cost(self, cost_per_hour: i64) -> (r: Self)
        ensures
            r == (Resource { cost_per_hour: Some(cost_per_hour), ..self }),
    {
        Resource { cost_per_hour: Some(cost_per_hour), ..self }
    }

    pub fn with_attribute(self, key: &str, value: &str) -> (r: Self)
        ensures
            r.id == self.id && r.resource_type == self.resource_type && r.capacity == self.capacity,
            r.skills == self.skills && r.calendar == self.calendar,
    {
        let mut s = self;
        s.attributes.insert(key.to_owned(), value.to_owned());
        s
    }

    pub fn has_skill(&self, skill_name: &str) -> (r: bool)
        ensures
            r == exists|i: int| 0 <= i < self.skills@.len() && #[trigger] self.skills@[i].name@ == skill_name@,
    {
        let mut i: usize = 0;
        while i < self.skills.len()
            invariant
                i <= self.skills@.len(),
                forall|k: int| 0 <= k < i ==> #[trigger] self.skills@[k].name@ != skill_name@,
            decreases self.skills@.len() - i,
        {
            if same_text(&self.skills[i].name, skill_name) {
                return true;
            }
            i += 1;
        }
        false
    }

    /// The level of the named skill, in thousandths; 0 when absent.
    pub fn skill_level(&self, skill_name: &str) -> (r: i32)
        ensures
            r == level_of(self.skills@, skill_name@),
    {
        let mut i: usize = 0;
        proof {
            assert(self.skills@.subrange(0, self.skills@.len() as int) =~= self.skills@);
        }
        while i < self.skills.len()
            invariant
                i <= self.skills@.len(),
                level_of(self.skills@, skill_name@) == level_of(
                    self.skills@.subrange(i as int, self.skills@.len() as int),
                    skill_name@,
                ),
            decreases self.skills@.len() - i,
        {
            proof {
                let s = self.skills@.subrange(i as int, self.skills@.len() as int);
                assert(s.drop_first() =~= self.skills@.subrange(i + 1, self.skills@.len() as int));
            }
            if same_text(&self.skills[i].name, skill_name) {
                return self.skills[i].level;
            }
            i += 1;
        }
        0
    }

    /// Whether the resource works at the instant; always without a calendar.
    pub fn is_available_at(&self, timestamp_ms: i64) -> (r: bool)
        ensures
            r == match self.calendar {
                Some(c) => c.working(timestamp_ms as int),
                None => true,
            },
    {
        match &self.calendar {
            Some(cal) => cal.is_working_time(timestamp_ms),
            None => true,
        }
    }
}

} // verus!
