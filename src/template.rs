use vstd::prelude::*;

verus! {

/// The report template used when the configuration names none.
pub const DEFAULT_TEMPLATE: &'static str = "\
# {{ title }} {{ version }} ({{ date }})

{% for pr in prs -%}
- [{{ pr.title }}]({{ pr.html_url }})
{% endfor %}

{%- for title, prs in categories %}
## {{ title }}

    {% for pr in prs %}
- [{{ pr.title }}]({{ pr.html_url }})
    {%- endfor %}
{% endfor %}

{%- for include in includes %}
## {{ include.title }}

    {% for title, prs in include.categories %}
### {{ title }}

        {%- for pr in prs %}
- [{{ pr.title }}]({{ pr.html_url }})
        {%- endfor %}

    {%- endfor -%}

    {%- for pr in include.prs %}
- [{{ pr.title }}]({{ pr.html_url }})
    {%- endfor %}

{%- endfor %}

## Contributors

{% for contributor in contributors | sort(attribute=\"login\", case_sensitive=\"false\") %}
- [{{ contributor.login }}]({{ contributor.html_url }})
{%- endfor %}

";

/// The text of a report template.
#[derive(Clone, Debug)]
pub struct Template(pub String);

impl Template {
    /// The template text.
    pub fn as_str(&self) -> (r: &str)
        ensures
            r@ == self.0@,
    {
        self.0.as_str()
    }

    /// A copy of the template.
    pub fn duplicate(&self) -> (r: Template)
        ensures
            r.0@ == self.0@,
    {
        Template(self.0.clone())
    }
}

impl Default for Template {
    fn default() -> (r: Template)
        ensures
            r.0@ == DEFAULT_TEMPLATE@,
    {
        Template(String::from_str(DEFAULT_TEMPLATE))
    }
}

} // verus!
