# docgen

Document generation from Markdown templates: a Handlebars template is rendered
with a JSON context, the Markdown is parsed into a document model of nested
sections, and the model is rendered as Typst source or as a DOCX package.

- `src/` is the library, verified with Verus. Parsing Markdown (pulldown-cmark),
  reading YAML front matter (serde_yaml), rendering templates (handlebars) and
  writing DOCX packages (docx-rs) are calls into those crates behind small
  trusted functions whose contracts say what those crates do; what the library
  decides around them is stated in contracts and proved.
- `tests/` runs the library on concrete inputs.
- `app/` holds the Python bindings (pyo3) and the PDF layout with genpdf. The
  template pipeline builds no PDF: asked for `pdf`, it reports that no PDF back
  end is built in.
